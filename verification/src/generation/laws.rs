//! What holds of every plan.

use vstd::prelude::*;
use vstd::utf8::encode_utf8;
use crate::enc::age::{DecryptedValue, Plain};
use crate::generation::plan::{
    activation_changes, destination_changes, destinations_changes, link_changes, links_changes,
    plain, publish_changes, secret_changes, secrets_changes, staging_changes, substitutions,
    template_changes, templates_changes, unknown_secrets,
};
use crate::generation::steps::{
    content_of, file_in, final_mode, generation_metadata_path, generation_path,
    permission_changes, pointer_path, rendered_in, temporary_path, Caution, Change,
};
use crate::manifest::{SecretFile, Template};
use crate::template::{placeholders_of, rendered};

verus! {

/// `text` begins with `prefix`.
pub open spec fn begins_with(text: Seq<char>, prefix: Seq<char>) -> bool {
    prefix.len() <= text.len() && text.take(prefix.len() as int) == prefix
}

/// The step changes nothing but what lies at or below `directory`.
pub open spec fn stays_inside(change: Change, directory: Seq<char>) -> bool {
    match change {
        Change::CreateDirAll { path } => begins_with(path, directory),
        Change::WriteGenerationMetadata { path } => begins_with(path, directory),
        Change::WriteFile { path, content } => begins_with(path, directory),
        Change::SetPermissions { path, mode, owner, group } => begins_with(path, directory),
        Change::Warn { warning } => true,
        _ => false,
    }
}

/// The steps that write the secrets change nothing outside `directory`.
pub proof fn lemma_secrets_stay_inside(
    directory: Seq<char>,
    files: Seq<SecretFile>,
    values: Seq<Option<DecryptedValue>>,
)
    ensures
        forall|i: int|
            0 <= i < secrets_changes(directory, files, values).len() ==> stays_inside(
                #[trigger] secrets_changes(directory, files, values)[i],
                directory,
            ),
    decreases files.len(),
{
    if files.len() == 0 || values.len() != files.len() {
    } else {
        lemma_secrets_stay_inside(directory, files.drop_last(), values.drop_last());
        let before = secrets_changes(directory, files.drop_last(), values.drop_last());
        let last = secret_changes(directory, files.last(), plain(values.last()));
        let path = file_in(directory, files.last().name@);
        assert(path.take(directory.len() as int) =~= directory);
        assert forall|i: int| 0 <= i < last.len() implies stays_inside(
            #[trigger] last[i],
            directory,
        ) by {}
        assert forall|i: int| 0 <= i < (before + last).len() implies stays_inside(
            #[trigger] (before + last)[i],
            directory,
        ) by {
            if i >= before.len() {
                assert((before + last)[i] == last[i - before.len()]);
            }
        }
    }
}

/// The steps that write the rendered templates change nothing outside
/// `directory`.
pub proof fn lemma_templates_stay_inside(
    directory: Seq<char>,
    templates: Seq<Template>,
    sources: Seq<String>,
    table: Seq<(Seq<char>, Seq<char>)>,
)
    ensures
        forall|i: int|
            0 <= i < templates_changes(directory, templates, sources, table).len()
                ==> stays_inside(
                #[trigger] templates_changes(directory, templates, sources, table)[i],
                directory,
            ),
    decreases templates.len(),
{
    if templates.len() == 0 || sources.len() != templates.len() {
    } else {
        lemma_templates_stay_inside(directory, templates.drop_last(), sources.drop_last(), table);
        let before = templates_changes(directory, templates.drop_last(), sources.drop_last(), table);
        let last = template_changes(directory, templates.last(), sources.last()@, table);
        let path = file_in(rendered_in(directory), templates.last().name@);
        assert(path.take(directory.len() as int) =~= directory);
        assert forall|i: int| 0 <= i < last.len() implies stays_inside(
            #[trigger] last[i],
            directory,
        ) by {}
        assert forall|i: int| 0 <= i < (before + last).len() implies stays_inside(
            #[trigger] (before + last)[i],
            directory,
        ) by {
            if i >= before.len() {
                assert((before + last)[i] == last[i - before.len()]);
            }
        }
    }
}

/// Before the pointer is turned, an installation changes nothing outside
/// the directory of the new generation: every step of the staging creates,
/// writes or changes something whose path begins with that directory, or
/// is a warning.
pub proof fn lemma_staging_stays_inside(
    basedir: Seq<char>,
    generation_id: Seq<char>,
    files: Seq<SecretFile>,
    templates: Seq<Template>,
    values: Seq<Option<DecryptedValue>>,
    sources: Seq<String>,
)
    ensures
        forall|i: int|
            0 <= i < staging_changes(
                basedir,
                generation_id,
                files,
                templates,
                values,
                sources,
            ).len() ==> stays_inside(
                #[trigger] staging_changes(
                    basedir,
                    generation_id,
                    files,
                    templates,
                    values,
                    sources,
                )[i],
                generation_path(basedir, generation_id),
            ),
{
    let directory = generation_path(basedir, generation_id);
    let head = seq![
        Change::CreateDirAll { path: directory },
        Change::WriteGenerationMetadata {
            path: generation_metadata_path(basedir, generation_id),
        },
    ];
    let secrets = secrets_changes(directory, files, values);
    let middle = seq![Change::CreateDirAll { path: rendered_in(directory) }];
    let rendered = templates_changes(directory, templates, sources, substitutions(files, values));
    let staging = staging_changes(basedir, generation_id, files, templates, values, sources);
    lemma_secrets_stay_inside(directory, files, values);
    lemma_templates_stay_inside(directory, templates, sources, substitutions(files, values));
    assert(directory.take(directory.len() as int) =~= directory);
    assert(generation_metadata_path(basedir, generation_id).take(directory.len() as int)
        =~= directory);
    assert(rendered_in(directory).take(directory.len() as int) =~= directory);
    assert forall|i: int| 0 <= i < staging.len() implies stays_inside(
        #[trigger] staging[i],
        directory,
    ) by {
        if i < 2 {
            assert(staging[i] == head[i]);
        } else if i < 2 + secrets.len() {
            assert(staging[i] == secrets[i - 2]);
        } else if i < 3 + secrets.len() {
            assert(staging[i] == middle[0]);
        } else {
            assert(staging[i] == rendered[i - 3 - secrets.len()]);
        }
    }
}

/// Right after the staging an installation turns the pointer of the base
/// directory to the new generation: a link to the directory of the
/// generation, which lies below `generations` in the base directory, is
/// made and renamed over the pointer.
pub proof fn lemma_pointer_turns_to_the_generation(
    basedir: Seq<char>,
    generation_id: Seq<char>,
    pointer_id: Seq<char>,
    files: Seq<SecretFile>,
    templates: Seq<Template>,
    values: Seq<Option<DecryptedValue>>,
    sources: Seq<String>,
    previous: Option<Seq<Seq<char>>>,
)
    ensures
        ({
            let steps = activation_changes(
                basedir,
                generation_id,
                pointer_id,
                files,
                templates,
                values,
                sources,
                previous,
            );
            let at = staging_changes(
                basedir,
                generation_id,
                files,
                templates,
                values,
                sources,
            ).len() as int;
            &&& at + 1 < steps.len()
            &&& steps[at] == Change::Symlink {
                target: generation_path(basedir, generation_id),
                link: file_in(basedir, pointer_id),
            }
            &&& steps[at + 1] == Change::Rename {
                from: file_in(basedir, pointer_id),
                to: pointer_path(basedir),
            }
            &&& begins_with(generation_path(basedir, generation_id), basedir + "/generations/"@)
        }),
{
    let directory = generation_path(basedir, generation_id);
    assert(directory.take((basedir + "/generations/"@).len() as int) =~= basedir
        + "/generations/"@);
}

/// The final mode of a file is made of permission bits alone.
pub proof fn lemma_final_mode_is_permission_bits(configured: Option<Seq<char>>)
    ensures
        match final_mode(configured) {
            Some(mode) => mode & 0o777 == mode,
            None => true,
        },
{
    match final_mode(configured) {
        Some(mode) => {
            assert(mode <= 0o777);
            assert(mode <= 0o777 ==> mode & 0o777 == mode) by (bit_vector);
        },
        None => {},
    }
}

/// A list of steps holds the steps `part`, one after the other, somewhere.
pub open spec fn holds(steps: Seq<Change>, part: Seq<Change>) -> bool {
    exists|at: int| stand_at(steps, at, part)
}

/// The steps `part` stand in `steps` from position `at` on.
pub open spec fn stand_at(steps: Seq<Change>, at: int, part: Seq<Change>) -> bool {
    0 <= at && at + part.len() <= steps.len() && steps.subrange(at, at + part.len()) == part
}

/// What a list of steps holds, it still holds with steps before and after
/// it.
pub proof fn lemma_holds_in_longer(
    before: Seq<Change>,
    steps: Seq<Change>,
    after: Seq<Change>,
    part: Seq<Change>,
)
    requires
        holds(steps, part),
    ensures
        holds(before + steps + after, part),
{
    let at = choose|at: int| stand_at(steps, at, part);
    let all = before + steps + after;
    assert(all.subrange(before.len() + at, before.len() + at + part.len()) =~= part);
    assert(stand_at(all, before.len() + at, part));
}

/// Every secret with a link is published as a link that leads through the
/// pointer of the base directory to the file of its name: the plan makes
/// that link beside the destination and renames it over the destination.
pub proof fn lemma_links_lead_through_the_pointer(
    basedir: Seq<char>,
    files: Seq<SecretFile>,
    at: int,
)
    requires
        0 <= at < files.len(),
        files[at].link.is_some(),
    ensures
        holds(
            links_changes(basedir, files),
            publish_changes(
                files[at].link.unwrap()@,
                Change::Symlink {
                    target: file_in(pointer_path(basedir), files[at].name@),
                    link: temporary_path(files[at].link.unwrap()@),
                },
            ),
        ),
    decreases files.len(),
{
    let earlier = links_changes(basedir, files.drop_last());
    let last = link_changes(basedir, files.last());
    let part = publish_changes(
        files[at].link.unwrap()@,
        Change::Symlink {
            target: file_in(pointer_path(basedir), files[at].name@),
            link: temporary_path(files[at].link.unwrap()@),
        },
    );
    if at == files.len() - 1 {
        assert(last.subrange(0, part.len() as int) =~= part);
        assert(stand_at(last, 0, part));
        lemma_holds_in_longer(earlier, last, Seq::empty(), part);
        assert(earlier + last + Seq::<Change>::empty() =~= earlier + last);
    } else {
        assert(files.drop_last()[at] == files[at]);
        lemma_links_lead_through_the_pointer(basedir, files.drop_last(), at);
        lemma_holds_in_longer(Seq::empty(), earlier, last, part);
        assert(Seq::<Change>::empty() + earlier + last =~= earlier + last);
    }
}

/// Every template is published at its destination: as a copy of its
/// rendered file in the generation `directory` where it asks for a copy,
/// else as a link that leads through the pointer of the base directory.
pub proof fn lemma_destinations_are_published(
    basedir: Seq<char>,
    directory: Seq<char>,
    templates: Seq<Template>,
    at: int,
)
    requires
        0 <= at < templates.len(),
    ensures
        holds(
            destinations_changes(basedir, directory, templates),
            destination_changes(basedir, directory, templates[at]),
        ),
    decreases templates.len(),
{
    let earlier = destinations_changes(basedir, directory, templates.drop_last());
    let last = destination_changes(basedir, directory, templates.last());
    let part = destination_changes(basedir, directory, templates[at]);
    if at == templates.len() - 1 {
        assert(last.subrange(0, part.len() as int) =~= part);
        assert(stand_at(last, 0, part));
        lemma_holds_in_longer(earlier, last, Seq::empty(), part);
        assert(earlier + last + Seq::<Change>::empty() =~= earlier + last);
    } else {
        assert(templates.drop_last()[at] == templates[at]);
        lemma_destinations_are_published(basedir, directory, templates.drop_last(), at);
        lemma_holds_in_longer(Seq::empty(), earlier, last, part);
        assert(Seq::<Change>::empty() + earlier + last =~= earlier + last);
    }
}

/// Every secret that has a value, and whose mode is configured as three
/// octal digits or not at all, is written under its name into the
/// generation directory and is given its final mode: the configured one, or
/// `0o400` where none is configured.
pub proof fn lemma_secrets_get_their_mode(
    directory: Seq<char>,
    files: Seq<SecretFile>,
    values: Seq<Option<DecryptedValue>>,
    at: int,
)
    requires
        files.len() == values.len(),
        0 <= at < files.len(),
        values[at].is_some(),
        final_mode(files[at].mode.deep_view()).is_some(),
    ensures
        holds(
            secrets_changes(directory, files, values),
            seq![
                Change::SetPermissions {
                    path: file_in(directory, files[at].name@),
                    mode: final_mode(files[at].mode.deep_view()).unwrap(),
                    owner: files[at].owner.deep_view(),
                    group: files[at].group.deep_view(),
                },
            ],
        ),
        holds(
            secrets_changes(directory, files, values),
            seq![
                Change::WriteFile {
                    path: file_in(directory, files[at].name@),
                    content: content_of(values[at].unwrap()@),
                },
            ],
        ),
    decreases files.len(),
{
    let earlier = secrets_changes(directory, files.drop_last(), values.drop_last());
    let last = secret_changes(directory, files.last(), plain(values.last()));
    let set = seq![
        Change::SetPermissions {
            path: file_in(directory, files[at].name@),
            mode: final_mode(files[at].mode.deep_view()).unwrap(),
            owner: files[at].owner.deep_view(),
            group: files[at].group.deep_view(),
        },
    ];
    let write = seq![
        Change::WriteFile {
            path: file_in(directory, files[at].name@),
            content: content_of(values[at].unwrap()@),
        },
    ];
    if at == files.len() - 1 {
        assert(last.subrange(0, 1) =~= write);
        assert(stand_at(last, 0, write));
        assert(last.subrange(last.len() - 1, last.len() as int) =~= set);
        assert(stand_at(last, last.len() - 1, set));
        lemma_holds_in_longer(earlier, last, Seq::empty(), set);
        lemma_holds_in_longer(earlier, last, Seq::empty(), write);
        assert(earlier + last + Seq::<Change>::empty() =~= earlier + last);
    } else {
        assert(files.drop_last()[at] == files[at]);
        assert(values.drop_last()[at] == values[at]);
        lemma_secrets_get_their_mode(directory, files.drop_last(), values.drop_last(), at);
        lemma_holds_in_longer(Seq::empty(), earlier, last, set);
        lemma_holds_in_longer(Seq::empty(), earlier, last, write);
        assert(Seq::<Change>::empty() + earlier + last =~= earlier + last);
    }
}

/// The contents that the steps write, in their order.
pub open spec fn written(changes: Seq<Change>) -> Seq<Seq<u8>>
    decreases changes.len(),
{
    if changes.len() == 0 {
        Seq::empty()
    } else {
        written(changes.drop_last()) + match changes.last() {
            Change::WriteFile { path, content } => seq![content],
            _ => Seq::empty(),
        }
    }
}

/// What a single step writes.
pub proof fn lemma_written_by_one(change: Change)
    ensures
        written(seq![change]) == match change {
            Change::WriteFile { path, content } => seq![content],
            _ => Seq::<Seq<u8>>::empty(),
        },
{
    let one = seq![change];
    assert(one.drop_last() =~= Seq::empty());
    assert(written(one.drop_last()) =~= Seq::<Seq<u8>>::empty());
    assert(one.last() == change);
    assert(written(one) =~= match change {
        Change::WriteFile { path, content } => seq![content],
        _ => Seq::<Seq<u8>>::empty(),
    });
}

/// What two lists of steps write, one after the other.
pub proof fn lemma_written_of_both(first: Seq<Change>, second: Seq<Change>)
    ensures
        written(first + second) == written(first) + written(second),
    decreases second.len(),
{
    if second.len() == 0 {
        assert(first + second =~= first);
        assert(written(first) + written(second) =~= written(first));
    } else {
        lemma_written_of_both(first, second.drop_last());
        assert((first + second).drop_last() =~= first + second.drop_last());
        assert((first + second).last() == second.last());
        let tail = match second.last() {
            Change::WriteFile { path, content } => seq![content],
            _ => Seq::empty(),
        };
        assert(written(first) + written(second.drop_last()) + tail =~= written(first) + (
        written(second.drop_last()) + tail));
    }
}

/// The secrets are written with the same contents into whatever directory.
pub proof fn lemma_secrets_written_alike(
    first: Seq<char>,
    second: Seq<char>,
    files: Seq<SecretFile>,
    values: Seq<Option<DecryptedValue>>,
)
    ensures
        written(secrets_changes(first, files, values)) == written(
            secrets_changes(second, files, values),
        ),
    decreases files.len(),
{
    if files.len() == 0 || values.len() != files.len() {
    } else {
        lemma_secrets_written_alike(first, second, files.drop_last(), values.drop_last());
        let one = secret_changes(first, files.last(), plain(values.last()));
        let other = secret_changes(second, files.last(), plain(values.last()));
        lemma_written_of_both(secrets_changes(first, files.drop_last(), values.drop_last()), one);
        lemma_written_of_both(
            secrets_changes(second, files.drop_last(), values.drop_last()),
            other,
        );
        lemma_written_by_one_secret(first, files.last(), plain(values.last()));
        lemma_written_by_one_secret(second, files.last(), plain(values.last()));
    }
}

/// What the steps of one secret write: its content, where it has a value.
pub proof fn lemma_written_by_one_secret(
    directory: Seq<char>,
    file: SecretFile,
    value: Option<Plain>,
)
    ensures
        written(secret_changes(directory, file, value)) == match value {
            Some(value) => seq![content_of(value)],
            None => Seq::<Seq<u8>>::empty(),
        },
{
    let changes = secret_changes(directory, file, value);
    match value {
        None => {
            lemma_written_by_one(Change::Warn { warning: Caution::MissingKey { name: file.name@ } });
        },
        Some(value) => {
            let path = file_in(directory, file.name@);
            let write = seq![Change::WriteFile { path, content: content_of(value) }];
            let rest = (if value is Comment {
                seq![Change::Warn { warning: Caution::UnsupportedType { name: file.name@ } }]
            } else {
                Seq::empty()
            }) + permission_changes(
                path,
                file.mode.deep_view(),
                file.owner.deep_view(),
                file.group.deep_view(),
            );
            assert(changes =~= write + rest);
            lemma_written_of_both(write, rest);
            lemma_written_by_one(Change::WriteFile { path, content: content_of(value) });
            lemma_writes_nothing(rest);
            assert(written(write) + written(rest) =~= seq![content_of(value)]);
        },
    }
}

/// Steps among which none writes a file write nothing.
pub proof fn lemma_writes_nothing(changes: Seq<Change>)
    requires
        forall|i: int| 0 <= i < changes.len() ==> !(#[trigger] changes[i] is WriteFile),
    ensures
        written(changes) == Seq::<Seq<u8>>::empty(),
    decreases changes.len(),
{
    if changes.len() > 0 {
        assert forall|i: int| 0 <= i < changes.drop_last().len() implies !(
        #[trigger] changes.drop_last()[i] is WriteFile) by {
            assert(changes.drop_last()[i] == changes[i]);
        }
        lemma_writes_nothing(changes.drop_last());
        assert(!(changes[changes.len() - 1] is WriteFile));
    }
}

/// The templates are rendered to the same contents into whatever
/// directory.
pub proof fn lemma_templates_written_alike(
    first: Seq<char>,
    second: Seq<char>,
    templates: Seq<Template>,
    sources: Seq<String>,
    table: Seq<(Seq<char>, Seq<char>)>,
)
    ensures
        written(templates_changes(first, templates, sources, table)) == written(
            templates_changes(second, templates, sources, table),
        ),
    decreases templates.len(),
{
    if templates.len() == 0 || sources.len() != templates.len() {
    } else {
        lemma_templates_written_alike(
            first,
            second,
            templates.drop_last(),
            sources.drop_last(),
            table,
        );
        lemma_written_of_both(
            templates_changes(first, templates.drop_last(), sources.drop_last(), table),
            template_changes(first, templates.last(), sources.last()@, table),
        );
        lemma_written_of_both(
            templates_changes(second, templates.drop_last(), sources.drop_last(), table),
            template_changes(second, templates.last(), sources.last()@, table),
        );
        lemma_written_by_one_template(first, templates.last(), sources.last()@, table);
        lemma_written_by_one_template(second, templates.last(), sources.last()@, table);
    }
}

/// What the steps of one template write: its rendered text.
pub proof fn lemma_written_by_one_template(
    directory: Seq<char>,
    template: Template,
    source: Seq<char>,
    table: Seq<(Seq<char>, Seq<char>)>,
)
    ensures
        written(template_changes(directory, template, source, table)) == seq![
            encode_utf8(rendered(source, table)),
        ],
{
    let path = file_in(rendered_in(directory), template.name@);
    let write = seq![Change::WriteFile { path, content: encode_utf8(rendered(source, table)) }];
    let rest = unknown_secrets(template.name@, placeholders_of(rendered(source, table)))
        + permission_changes(
        path,
        template.mode.deep_view(),
        template.owner.deep_view(),
        template.group.deep_view(),
    );
    assert(template_changes(directory, template, source, table) =~= write + rest);
    lemma_written_of_both(write, rest);
    lemma_written_by_one(
        Change::WriteFile { path, content: encode_utf8(rendered(source, table)) },
    );
    lemma_writes_nothing(rest);
    assert(written(write) + written(rest) =~= seq![encode_utf8(rendered(source, table))]);
}

/// Installing the same secrets and templates again, under another id,
/// writes the same contents in the same order.
pub proof fn lemma_another_generation_writes_the_same(
    basedir: Seq<char>,
    first: Seq<char>,
    second: Seq<char>,
    files: Seq<SecretFile>,
    templates: Seq<Template>,
    values: Seq<Option<DecryptedValue>>,
    sources: Seq<String>,
)
    ensures
        written(staging_changes(basedir, first, files, templates, values, sources)) == written(
            staging_changes(basedir, second, files, templates, values, sources),
        ),
{
    let table = substitutions(files, values);
    let one = generation_path(basedir, first);
    let other = generation_path(basedir, second);
    lemma_staging_writes(basedir, first, files, templates, values, sources);
    lemma_staging_writes(basedir, second, files, templates, values, sources);
    lemma_secrets_written_alike(one, other, files, values);
    lemma_templates_written_alike(one, other, templates, sources, table);
}

/// What the staging writes: what the secrets write, then what the
/// templates write.
pub proof fn lemma_staging_writes(
    basedir: Seq<char>,
    generation_id: Seq<char>,
    files: Seq<SecretFile>,
    templates: Seq<Template>,
    values: Seq<Option<DecryptedValue>>,
    sources: Seq<String>,
)
    ensures
        written(staging_changes(basedir, generation_id, files, templates, values, sources))
            == written(secrets_changes(generation_path(basedir, generation_id), files, values))
            + written(
            templates_changes(
                generation_path(basedir, generation_id),
                templates,
                sources,
                substitutions(files, values),
            ),
        ),
{
    let directory = generation_path(basedir, generation_id);
    let head = seq![
        Change::CreateDirAll { path: directory },
        Change::WriteGenerationMetadata {
            path: generation_metadata_path(basedir, generation_id),
        },
    ];
    let secrets = secrets_changes(directory, files, values);
    let middle = seq![Change::CreateDirAll { path: rendered_in(directory) }];
    let rendered = templates_changes(directory, templates, sources, substitutions(files, values));
    lemma_written_of_both(head + secrets + middle, rendered);
    lemma_written_of_both(head + secrets, middle);
    lemma_written_of_both(head, secrets);
    lemma_writes_nothing(head);
    lemma_writes_nothing(middle);
    assert(written(head) + written(secrets) + written(middle) + written(rendered) =~= written(
        secrets,
    ) + written(rendered));
}

} // verus!
