//! The plan of an installation.

use vstd::prelude::*;
use vstd::utf8::encode_utf8;
use crate::enc::age::{DecryptedValue, Plain};
use crate::generation::metadata::{recorded, DeployedSecretsMetadata, FileSystemMetadata};
use crate::generation::steps::{
    content, content_of, file_in, fleet_metadata_path, generation_metadata_path,
    generation_path, get_file_in, get_generation_metadata_path, get_generation_path,
    permission_changes, pointer_path, push_step, rendered_in, set_file_permissions, substitute,
    substitute_of, temporary_path, Caution, Change, Step, Warning,
};
use crate::manifest::{SecretFile, Template};
use crate::template::{placeholders, placeholders_of, render, rendered, substitutions_with};
use crate::text::{chained, is_listed, same_text};

verus! {

/// The value that a secret decrypted to, as a mathematical value.
pub open spec fn plain(value: Option<DecryptedValue>) -> Option<Plain> {
    match value {
        Some(value) => Some(value@),
        None => None,
    }
}

/// The steps that write one secret into the generation directory
/// `directory`: its content, then its permissions. A secret without a value
/// is left out with a warning, and a comment is written empty with one.
pub open spec fn secret_changes(
    directory: Seq<char>,
    file: SecretFile,
    value: Option<Plain>,
) -> Seq<Change> {
    match value {
        None => seq![Change::Warn { warning: Caution::MissingKey { name: file.name@ } }],
        Some(value) => {
            let path = file_in(directory, file.name@);
            seq![Change::WriteFile { path, content: content_of(value) }] + (if value is Comment {
                seq![Change::Warn { warning: Caution::UnsupportedType { name: file.name@ } }]
            } else {
                Seq::empty()
            }) + permission_changes(
                path,
                file.mode.deep_view(),
                file.owner.deep_view(),
                file.group.deep_view(),
            )
        },
    }
}

/// The steps that write the secrets, in the order of the manifest.
pub open spec fn secrets_changes(
    directory: Seq<char>,
    files: Seq<SecretFile>,
    values: Seq<Option<DecryptedValue>>,
) -> Seq<Change>
    decreases files.len(),
{
    if files.len() == 0 || values.len() != files.len() {
        Seq::empty()
    } else {
        secrets_changes(directory, files.drop_last(), values.drop_last()) + secret_changes(
            directory,
            files.last(),
            plain(values.last()),
        )
    }
}

/// What stands for the secrets in templates: for each secret whose value
/// has a text, that text under the name of the secret, a later secret of
/// the same name taking the place of an earlier one.
pub open spec fn substitutions(
    files: Seq<SecretFile>,
    values: Seq<Option<DecryptedValue>>,
) -> Seq<(Seq<char>, Seq<char>)>
    decreases files.len(),
{
    if files.len() == 0 || values.len() != files.len() {
        Seq::empty()
    } else {
        let before = substitutions(files.drop_last(), values.drop_last());
        match plain(values.last()) {
            Some(value) => match substitute_of(value) {
                Some(text) => substitutions_with(before, files.last().name@, text),
                None => before,
            },
            None => before,
        }
    }
}

/// Sets `text` in `table` for `name`.
pub fn set_substitution(table: &mut Vec<(String, String)>, name: &str, text: String)
    ensures
        final(table).deep_view() == substitutions_with(old(table).deep_view(), name@, text@),
{
    let ghost before = table.deep_view();
    let n = table.len();
    let mut i: usize = 0;
    assert(before.skip(0) =~= before);
    assert(before.take(0) + substitutions_with(before, name@, text@) =~= substitutions_with(
        before,
        name@,
        text@,
    ));
    while i < n
        invariant
            i <= n,
            n == table.len(),
            table.deep_view() == before,
            before == old(table).deep_view(),
            substitutions_with(before, name@, text@) == before.take(i as int)
                + substitutions_with(before.skip(i as int), name@, text@),
        decreases n - i,
    {
        let ghost rest = before.skip(i as int);
        assert(rest[0] == before[i as int]);
        assert(rest.drop_first() =~= before.skip(i + 1));
        assert(before[i as int] == (table@[i as int].0@, table@[i as int].1@));
        if same_text(table[i].0.as_str(), name) {
            assert(substitutions_with(rest, name@, text@) == seq![(name@, text@)]
                + rest.drop_first());
            table[i] = (name.to_owned(), text);
            assert(table.deep_view() =~= before.take(i as int) + (seq![(name@, text@)]
                + rest.drop_first()));
            return ;
        }
        assert(before.take(i as int) + (seq![rest[0]] + substitutions_with(
            rest.drop_first(),
            name@,
            text@,
        )) =~= before.take(i + 1) + substitutions_with(before.skip(i + 1), name@, text@));
        i += 1;
    }
    table.push((name.to_owned(), text));
    assert(table.deep_view() =~= before.take(n as int) + seq![(name@, text@)]);
}

/// Plans the writing of the secrets and collects what stands for them in
/// templates. Where there is not one value for each secret, nothing is
/// planned.
pub fn stage_secrets(
    steps: &mut Vec<Step>,
    directory: &str,
    files: &Vec<SecretFile>,
    values: &Vec<Option<DecryptedValue>>,
) -> (table: Vec<(String, String)>)
    ensures
        final(steps).deep_view() == old(steps).deep_view() + secrets_changes(
            directory@,
            files@,
            values@,
        ),
        table.deep_view() == substitutions(files@, values@),
{
    let mut table: Vec<(String, String)> = Vec::new();
    let n = files.len();
    if values.len() != n {
        assert(steps.deep_view() + Seq::<Change>::empty() =~= steps.deep_view());
        assert(table.deep_view() =~= Seq::empty());
        return table;
    }
    let mut i: usize = 0;
    assert(steps.deep_view() + Seq::<Change>::empty() =~= steps.deep_view());
    assert(table.deep_view() =~= Seq::empty());
    while i < n
        invariant
            i <= n,
            n == files.len(),
            n == values.len(),
            steps.deep_view() == old(steps).deep_view() + secrets_changes(
                directory@,
                files@.take(i as int),
                values@.take(i as int),
            ),
            table.deep_view() == substitutions(files@.take(i as int), values@.take(i as int)),
        decreases n - i,
    {
        let file = &files[i];
        let ghost before = steps.deep_view();
        let ghost done = secrets_changes(directory@, files@.take(i as int), values@.take(i as int));
        proof {
            assert(files@.take(i + 1).drop_last() =~= files@.take(i as int));
            assert(values@.take(i + 1).drop_last() =~= values@.take(i as int));
            assert(files@.take(i + 1).last() == files@[i as int]);
            assert(values@.take(i + 1).last() == values@[i as int]);
        }
        match &values[i] {
            None => {
                push_step(
                    steps,
                    Step::Warn { warning: Warning::MissingKey { name: file.name.clone() } },
                );
                assert(steps.deep_view() =~= old(steps).deep_view() + (done + secret_changes(
                    directory@,
                    files@[i as int],
                    None,
                )));
            },
            Some(value) => {
                let path = get_file_in(directory, file.name.as_str());
                push_step(steps, Step::WriteFile { path: path.clone(), content: content(value) });
                if let DecryptedValue::Comment(_) = value {
                    push_step(
                        steps,
                        Step::Warn { warning: Warning::UnsupportedType { name: file.name.clone() } },
                    );
                }
                set_file_permissions(steps, path.as_str(), &file.mode, &file.group, &file.owner);
                assert(steps.deep_view() =~= old(steps).deep_view() + (done + secret_changes(
                    directory@,
                    files@[i as int],
                    Some(value@),
                )));
                match substitute(value) {
                    Some(text) => set_substitution(&mut table, file.name.as_str(), text),
                    None => {},
                }
            },
        }
        i += 1;
    }
    assert(files@.take(n as int) =~= files@);
    assert(values@.take(n as int) =~= values@);
    table
}

/// The warnings for the placeholders `names` that are left in the rendered
/// template `template`.
pub open spec fn unknown_secrets(template: Seq<char>, names: Seq<Seq<char>>) -> Seq<Change> {
    Seq::new(
        names.len(),
        |i: int| Change::Warn { warning: Caution::UnknownSecret { template, name: names[i] } },
    )
}

/// The steps that write one rendered template into the generation
/// directory `directory`: the text of the template with the secrets set
/// in, a warning for every placeholder that is left in it, then its
/// permissions.
pub open spec fn template_changes(
    directory: Seq<char>,
    template: Template,
    source: Seq<char>,
    table: Seq<(Seq<char>, Seq<char>)>,
) -> Seq<Change> {
    let path = file_in(rendered_in(directory), template.name@);
    let text = rendered(source, table);
    seq![Change::WriteFile { path, content: encode_utf8(text) }] + unknown_secrets(
        template.name@,
        placeholders_of(text),
    ) + permission_changes(
        path,
        template.mode.deep_view(),
        template.owner.deep_view(),
        template.group.deep_view(),
    )
}

/// Plans a warning for each of the placeholders `names` that are left in
/// the rendered template `template`.
pub fn warn_of_unknown_secrets(steps: &mut Vec<Step>, template: &str, names: &Vec<String>)
    ensures
        final(steps).deep_view() == old(steps).deep_view() + unknown_secrets(
            template@,
            names.deep_view(),
        ),
{
    let mut i: usize = 0;
    assert(steps.deep_view() =~= old(steps).deep_view() + unknown_secrets(
        template@,
        names.deep_view().take(0),
    ));
    while i < names.len()
        invariant
            i <= names.len(),
            steps.deep_view() == old(steps).deep_view() + unknown_secrets(
                template@,
                names.deep_view().take(i as int),
            ),
        decreases names.len() - i,
    {
        push_step(
            steps,
            Step::Warn {
                warning: Warning::UnknownSecret {
                    template: template.to_owned(),
                    name: names[i].clone(),
                },
            },
        );
        assert(steps.deep_view() =~= old(steps).deep_view() + unknown_secrets(
            template@,
            names.deep_view().take(i + 1),
        ));
        i += 1;
    }
    assert(names.deep_view().take(names.len() as int) =~= names.deep_view());
}

/// The steps that write the rendered templates, in the order of the
/// manifest.
pub open spec fn templates_changes(
    directory: Seq<char>,
    templates: Seq<Template>,
    sources: Seq<String>,
    table: Seq<(Seq<char>, Seq<char>)>,
) -> Seq<Change>
    decreases templates.len(),
{
    if templates.len() == 0 || sources.len() != templates.len() {
        Seq::empty()
    } else {
        templates_changes(directory, templates.drop_last(), sources.drop_last(), table)
            + template_changes(directory, templates.last(), sources.last()@, table)
    }
}

/// Plans the writing of the rendered templates. Where there is not one
/// text for each template, nothing is planned.
pub fn stage_templates(
    steps: &mut Vec<Step>,
    directory: &str,
    templates: &Vec<Template>,
    sources: &Vec<String>,
    table: &Vec<(String, String)>,
)
    ensures
        final(steps).deep_view() == old(steps).deep_view() + templates_changes(
            directory@,
            templates@,
            sources@,
            table.deep_view(),
        ),
{
    let rendered_directory = chained(directory, "/rendered");
    let n = templates.len();
    if sources.len() != n {
        assert(steps.deep_view() + Seq::<Change>::empty() =~= steps.deep_view());
        return ;
    }
    let mut i: usize = 0;
    assert(steps.deep_view() + Seq::<Change>::empty() =~= steps.deep_view());
    while i < n
        invariant
            i <= n,
            n == templates.len(),
            n == sources.len(),
            rendered_directory@ == rendered_in(directory@),
            steps.deep_view() == old(steps).deep_view() + templates_changes(
                directory@,
                templates@.take(i as int),
                sources@.take(i as int),
                table.deep_view(),
            ),
        decreases n - i,
    {
        let template = &templates[i];
        let ghost done = templates_changes(
            directory@,
            templates@.take(i as int),
            sources@.take(i as int),
            table.deep_view(),
        );
        proof {
            assert(templates@.take(i + 1).drop_last() =~= templates@.take(i as int));
            assert(sources@.take(i + 1).drop_last() =~= sources@.take(i as int));
            assert(templates@.take(i + 1).last() == templates@[i as int]);
            assert(sources@.take(i + 1).last() == sources@[i as int]);
        }
        let path = get_file_in(rendered_directory.as_str(), template.name.as_str());
        let text = render(sources[i].as_str(), table);
        push_step(
            steps,
            Step::WriteFile { path: path.clone(), content: text.as_str().as_bytes_vec() },
        );
        warn_of_unknown_secrets(steps, template.name.as_str(), &placeholders(text.as_str()));
        set_file_permissions(
            steps,
            path.as_str(),
            &template.mode,
            &template.group,
            &template.owner,
        );
        assert(steps.deep_view() =~= old(steps).deep_view() + (done + template_changes(
            directory@,
            templates@[i as int],
            sources@[i as int]@,
            table.deep_view(),
        )));
        i += 1;
    }
    assert(templates@.take(n as int) =~= templates@);
    assert(sources@.take(n as int) =~= sources@);
}

/// The two steps that make the generation `generation_id` the active one:
/// a link to its directory under the name `pointer_id`, renamed over the
/// pointer of the base directory.
pub open spec fn flip_changes(
    basedir: Seq<char>,
    generation_id: Seq<char>,
    pointer_id: Seq<char>,
) -> Seq<Change> {
    seq![
        Change::Symlink {
            target: generation_path(basedir, generation_id),
            link: file_in(basedir, pointer_id),
        },
        Change::Rename { from: file_in(basedir, pointer_id), to: pointer_path(basedir) },
    ]
}

/// The steps that put something at `destination`: the directory above it,
/// the step `provide` that makes the temporary file beside it, and the
/// rename of that file over the destination.
pub open spec fn publish_changes(destination: Seq<char>, provide: Change) -> Seq<Change> {
    seq![
        Change::CreateParents { path: destination },
        provide,
        Change::Rename { from: temporary_path(destination), to: destination },
    ]
}

/// The steps that publish one secret: nothing where it has no link, else a
/// link at its destination that leads through the pointer of the base
/// directory.
pub open spec fn link_changes(basedir: Seq<char>, file: SecretFile) -> Seq<Change> {
    match file.link {
        Some(link) => publish_changes(
            link@,
            Change::Symlink {
                target: file_in(pointer_path(basedir), file.name@),
                link: temporary_path(link@),
            },
        ),
        None => Seq::empty(),
    }
}

/// The steps that publish the secrets, in the order of the manifest.
pub open spec fn links_changes(basedir: Seq<char>, files: Seq<SecretFile>) -> Seq<Change>
    decreases files.len(),
{
    if files.len() == 0 {
        Seq::empty()
    } else {
        links_changes(basedir, files.drop_last()) + link_changes(basedir, files.last())
    }
}

/// The steps that publish one template: a copy of the rendered file of the
/// generation in `directory` where the template asks for a copy, else a
/// link that leads through the pointer of the base directory.
pub open spec fn destination_changes(
    basedir: Seq<char>,
    directory: Seq<char>,
    template: Template,
) -> Seq<Change> {
    publish_changes(
        template.destination@,
        if template.copies() {
            Change::Copy {
                from: file_in(rendered_in(directory), template.name@),
                to: temporary_path(template.destination@),
            }
        } else {
            Change::Symlink {
                target: file_in(rendered_in(pointer_path(basedir)), template.name@),
                link: temporary_path(template.destination@),
            }
        },
    )
}

/// The steps that publish the templates, in the order of the manifest.
pub open spec fn destinations_changes(
    basedir: Seq<char>,
    directory: Seq<char>,
    templates: Seq<Template>,
) -> Seq<Change>
    decreases templates.len(),
{
    if templates.len() == 0 {
        Seq::empty()
    } else {
        destinations_changes(basedir, directory, templates.drop_last()) + destination_changes(
            basedir,
            directory,
            templates.last(),
        )
    }
}

fn push_publish(steps: &mut Vec<Step>, destination: &str, provide: Step)
    ensures
        final(steps).deep_view() == old(steps).deep_view() + publish_changes(
            destination@,
            provide.deep_view(),
        ),
{
    push_step(steps, Step::CreateParents { path: destination.to_owned() });
    push_step(steps, provide);
    push_step(
        steps,
        Step::Rename { from: chained(destination, ".tmp"), to: destination.to_owned() },
    );
    assert(steps.deep_view() =~= old(steps).deep_view() + publish_changes(
        destination@,
        provide.deep_view(),
    ));
}

/// Plans the publishing of the secrets and of the templates.
pub fn publish(
    steps: &mut Vec<Step>,
    basedir: &str,
    directory: &str,
    files: &Vec<SecretFile>,
    templates: &Vec<Template>,
)
    ensures
        final(steps).deep_view() == old(steps).deep_view() + links_changes(basedir@, files@)
            + destinations_changes(basedir@, directory@, templates@),
{
    let pointer = chained(basedir, "/secrets");
    let mut i: usize = 0;
    assert(steps.deep_view() + Seq::<Change>::empty() =~= steps.deep_view());
    while i < files.len()
        invariant
            i <= files.len(),
            pointer@ == pointer_path(basedir@),
            steps.deep_view() == old(steps).deep_view() + links_changes(
                basedir@,
                files@.take(i as int),
            ),
        decreases files.len() - i,
    {
        let file = &files[i];
        let ghost done = links_changes(basedir@, files@.take(i as int));
        proof {
            assert(files@.take(i + 1).drop_last() =~= files@.take(i as int));
            assert(files@.take(i + 1).last() == files@[i as int]);
        }
        match &file.link {
            Some(link) => {
                let provide = Step::Symlink {
                    target: get_file_in(pointer.as_str(), file.name.as_str()),
                    link: chained(link.as_str(), ".tmp"),
                };
                push_publish(steps, link.as_str(), provide);
            },
            None => {},
        }
        assert(steps.deep_view() =~= old(steps).deep_view() + (done + link_changes(
            basedir@,
            files@[i as int],
        )));
        i += 1;
    }
    assert(files@.take(files.len() as int) =~= files@);
    let ghost linked = steps.deep_view();
    let rendered_directory = chained(directory, "/rendered");
    let rendered_pointer = chained(pointer.as_str(), "/rendered");
    let mut j: usize = 0;
    assert(steps.deep_view() + Seq::<Change>::empty() =~= steps.deep_view());
    while j < templates.len()
        invariant
            j <= templates.len(),
            rendered_directory@ == rendered_in(directory@),
            rendered_pointer@ == rendered_in(pointer_path(basedir@)),
            steps.deep_view() == linked + destinations_changes(
                basedir@,
                directory@,
                templates@.take(j as int),
            ),
        decreases templates.len() - j,
    {
        let template = &templates[j];
        let ghost done = destinations_changes(basedir@, directory@, templates@.take(j as int));
        proof {
            assert(templates@.take(j + 1).drop_last() =~= templates@.take(j as int));
            assert(templates@.take(j + 1).last() == templates@[j as int]);
        }
        let copies = match template.copy {
            Some(copy) => copy,
            None => false,
        };
        let provide = if copies {
            Step::Copy {
                from: get_file_in(rendered_directory.as_str(), template.name.as_str()),
                to: chained(template.destination.as_str(), ".tmp"),
            }
        } else {
            Step::Symlink {
                target: get_file_in(rendered_pointer.as_str(), template.name.as_str()),
                link: chained(template.destination.as_str(), ".tmp"),
            }
        };
        push_publish(steps, template.destination.as_str(), provide);
        assert(steps.deep_view() =~= linked + (done + destination_changes(
            basedir@,
            directory@,
            templates@[j as int],
        )));
        j += 1;
    }
    assert(templates@.take(templates.len() as int) =~= templates@);
}

/// The links of the secrets that have one, in the order of the manifest.
pub open spec fn links_of(files: Seq<SecretFile>) -> Seq<Seq<char>>
    decreases files.len(),
{
    if files.len() == 0 {
        Seq::empty()
    } else {
        links_of(files.drop_last()) + match files.last().link {
            Some(link) => seq![link@],
            None => Seq::empty(),
        }
    }
}

/// The destinations of the templates, in the order of the manifest.
pub open spec fn destinations_of(templates: Seq<Template>) -> Seq<Seq<char>> {
    Seq::new(templates.len(), |i: int| templates[i].destination@)
}

/// The paths outside the base directory that a generation publishes: the
/// destinations of the templates, then the links of the secrets.
pub open spec fn published(files: Seq<SecretFile>, templates: Seq<Template>) -> Seq<Seq<char>> {
    destinations_of(templates) + links_of(files)
}

/// The paths that a generation publishes.
pub fn published_files(files: &Vec<SecretFile>, templates: &Vec<Template>) -> (paths: Vec<String>)
    ensures
        paths.deep_view() == published(files@, templates@),
{
    let mut paths: Vec<String> = Vec::new();
    let mut j: usize = 0;
    assert(paths.deep_view() =~= destinations_of(templates@).take(0));
    while j < templates.len()
        invariant
            j <= templates.len(),
            paths.deep_view() == destinations_of(templates@).take(j as int),
        decreases templates.len() - j,
    {
        let ghost before = paths.deep_view();
        paths.push(templates[j].destination.clone());
        assert(paths.deep_view() =~= before.push(templates@[j as int].destination@));
        assert(paths.deep_view() =~= destinations_of(templates@).take(j + 1));
        j += 1;
    }
    assert(destinations_of(templates@).take(templates.len() as int) =~= destinations_of(
        templates@,
    ));
    let ghost destinations = paths.deep_view();
    let mut i: usize = 0;
    assert(paths.deep_view() =~= destinations + links_of(files@.take(0)));
    while i < files.len()
        invariant
            i <= files.len(),
            paths.deep_view() == destinations + links_of(files@.take(i as int)),
        decreases files.len() - i,
    {
        proof {
            assert(files@.take(i + 1).drop_last() =~= files@.take(i as int));
            assert(files@.take(i + 1).last() == files@[i as int]);
        }
        let ghost before = paths.deep_view();
        match &files[i].link {
            Some(link) => {
                paths.push(link.clone());
                assert(paths.deep_view() =~= before.push(link@));
            },
            None => {},
        }
        assert(paths.deep_view() =~= destinations + links_of(files@.take(i + 1)));
        i += 1;
    }
    assert(files@.take(files.len() as int) =~= files@);
    paths
}

/// The paths that an earlier generation published and the current one does
/// not publish any more: each of them once, in the order in which the
/// earlier generation lists them.
pub open spec fn stale(previous: Seq<Seq<char>>, current: Seq<Seq<char>>) -> Seq<Seq<char>>
    decreases previous.len(),
{
    if previous.len() == 0 {
        Seq::empty()
    } else {
        let before = stale(previous.drop_last(), current);
        if current.contains(previous.last()) || before.contains(previous.last()) {
            before
        } else {
            before.push(previous.last())
        }
    }
}

/// The stale paths are those that the earlier generation published and the
/// current one does not, and none of them is listed twice.
pub proof fn lemma_stale_is_the_difference(previous: Seq<Seq<char>>, current: Seq<Seq<char>>)
    ensures
        forall|path: Seq<char>|
            stale(previous, current).contains(path) <==> previous.contains(path)
                && !current.contains(path),
        stale(previous, current).no_duplicates(),
    decreases previous.len(),
{
    let result = stale(previous, current);
    if previous.len() == 0 {
    } else {
        let earlier = previous.drop_last();
        let before = stale(earlier, current);
        lemma_stale_is_the_difference(earlier, current);
        assert forall|path: Seq<char>| result.contains(path) <==> previous.contains(path)
            && !current.contains(path) by {
            if previous.contains(path) {
                let i = choose|i: int| 0 <= i < previous.len() && previous[i] == path;
                if i < previous.len() - 1 {
                    assert(earlier[i] == path);
                }
            }
            if earlier.contains(path) {
                let i = choose|i: int| 0 <= i < earlier.len() && earlier[i] == path;
                assert(previous[i] == path);
            }
            if before.contains(path) {
                let i = choose|i: int| 0 <= i < before.len() && before[i] == path;
                if result != before {
                    assert(result[i] == path);
                }
            }
            if result.contains(path) && result != before {
                let i = choose|i: int| 0 <= i < result.len() && result[i] == path;
                if i < before.len() {
                    assert(before[i] == path);
                } else {
                    assert(previous[previous.len() - 1] == path);
                }
            }
            if path == previous.last() {
                assert(previous[previous.len() - 1] == path);
                if result != before {
                    assert(result[result.len() - 1] == path);
                }
            }
        }
    }
}

/// The steps that remove the files `paths`.
pub open spec fn removals(paths: Seq<Seq<char>>) -> Seq<Change> {
    Seq::new(paths.len(), |i: int| Change::RemoveFile { path: paths[i] })
}

/// Plans the removal of what the generation before published and the
/// current one does not.
pub fn prune(steps: &mut Vec<Step>, previous: &Vec<String>, current: &Vec<String>)
    ensures
        final(steps).deep_view() == old(steps).deep_view() + removals(
            stale(previous.deep_view(), current.deep_view()),
        ),
{
    let mut gone: Vec<String> = Vec::new();
    let mut i: usize = 0;
    assert(steps.deep_view() + removals(Seq::empty()) =~= steps.deep_view());
    while i < previous.len()
        invariant
            i <= previous.len(),
            gone.deep_view() =~= stale(previous.deep_view().take(i as int), current.deep_view()),
            steps.deep_view() =~= old(steps).deep_view() + removals(gone.deep_view()),
        decreases previous.len() - i,
    {
        proof {
            assert(previous.deep_view().take(i + 1).drop_last() =~= previous.deep_view().take(
                i as int,
            ));
            assert(previous.deep_view().take(i + 1).last() == previous@[i as int]@);
        }
        let path = &previous[i];
        if !is_listed(current, path.as_str()) && !is_listed(&gone, path.as_str()) {
            let ghost before = gone.deep_view();
            gone.push(path.clone());
            assert(gone.deep_view() =~= before.push(path@));
            push_step(steps, Step::RemoveFile { path: path.clone() });
        }
        i += 1;
    }
    assert(previous.deep_view().take(previous.len() as int) =~= previous.deep_view());
}

/// The steps before the pointer is turned: the directory of the
/// generation, what it publishes, the secrets, and the rendered templates.
pub open spec fn staging_changes(
    basedir: Seq<char>,
    generation_id: Seq<char>,
    files: Seq<SecretFile>,
    templates: Seq<Template>,
    values: Seq<Option<DecryptedValue>>,
    sources: Seq<String>,
) -> Seq<Change> {
    let directory = generation_path(basedir, generation_id);
    seq![
        Change::CreateDirAll { path: directory },
        Change::WriteGenerationMetadata {
            path: generation_metadata_path(basedir, generation_id),
        },
    ] + secrets_changes(directory, files, values) + seq![
        Change::CreateDirAll { path: rendered_in(directory) },
    ] + templates_changes(directory, templates, sources, substitutions(files, values))
}

/// All the steps of an installation, in their order: the staging, the turn
/// of the pointer, the publishing of links and copies, the removal of what
/// the generation before published and this one does not, and the record
/// of the base directory.
pub open spec fn activation_changes(
    basedir: Seq<char>,
    generation_id: Seq<char>,
    pointer_id: Seq<char>,
    files: Seq<SecretFile>,
    templates: Seq<Template>,
    values: Seq<Option<DecryptedValue>>,
    sources: Seq<String>,
    previous: Option<Seq<Seq<char>>>,
) -> Seq<Change> {
    staging_changes(basedir, generation_id, files, templates, values, sources) + flip_changes(
        basedir,
        generation_id,
        pointer_id,
    ) + links_changes(basedir, files) + destinations_changes(
        basedir,
        generation_path(basedir, generation_id),
        templates,
    ) + removals(
        match previous {
            Some(previous) => stale(previous, published(files, templates)),
            None => Seq::empty(),
        },
    ) + seq![Change::WriteFleetMetadata { path: fleet_metadata_path(basedir), lenient: true }]
}

/// Why an installation could not be planned.
#[derive(Debug, Clone, Copy, PartialEq, Eq, Structural)]
pub enum Error {
    /// There is not one value for each secret, or not one text for each
    /// template.
    Inputs,
    /// The generations of the record are not in the order of their
    /// timestamps.
    Metadata,
}

/// A planned installation.
#[derive(Debug, Clone, PartialEq, Eq)]
pub struct Activation {
    /// The id of the new generation.
    pub generation_id: String,
    /// The name under which the link to the new generation is made before
    /// it is renamed over the pointer.
    pub pointer_id: String,
    /// What the new generation publishes.
    pub deployed: DeployedSecretsMetadata,
    /// The record of the base directory after the installation.
    pub metadata: FileSystemMetadata,
    /// What is to be done, in this order.
    pub steps: Vec<Step>,
}

/// The paths that the generation before published: those that `previous`
/// lists, where the record names a generation that was active before.
pub open spec fn files_of(
    active: Option<Seq<char>>,
    previous: Option<DeployedSecretsMetadata>,
) -> Option<Seq<Seq<char>>> {
    match (active, previous) {
        (Some(_), Some(previous)) => Some(previous.secret_files.deep_view()),
        _ => None,
    }
}

/// Why an installation cannot be planned, if it cannot: the values have to
/// be as many as the secrets, the texts as many as the templates, and the
/// generations of the record in the order of their timestamps.
pub open spec fn planning_error(
    files: Seq<SecretFile>,
    templates: Seq<Template>,
    values: Seq<Option<DecryptedValue>>,
    sources: Seq<String>,
    metadata: FileSystemMetadata,
) -> Option<Error> {
    if files.len() != values.len() || templates.len() != sources.len() {
        Some(Error::Inputs)
    } else if !metadata.wf() {
        Some(Error::Metadata)
    } else {
        None
    }
}

/// `activation` is the plan that installs the secrets and templates below
/// `basedir` as the generation it names: it tells what the generation
/// publishes, records the generation at the time `now` as the active one,
/// and lists the steps of the installation.
pub open spec fn is_activation_of(
    activation: Activation,
    basedir: Seq<char>,
    files: Seq<SecretFile>,
    templates: Seq<Template>,
    values: Seq<Option<DecryptedValue>>,
    sources: Seq<String>,
    metadata: FileSystemMetadata,
    previous: Option<DeployedSecretsMetadata>,
    now: u64,
) -> bool {
    &&& activation.deployed.generation@ == activation.generation_id@
    &&& activation.deployed.secret_files.deep_view() == published(files, templates)
    &&& activation.metadata.wf()
    &&& activation.metadata@.generations == recorded(
        metadata@.generations,
        now,
        activation.generation_id@,
    )
    &&& activation.metadata@.active_generation == Some(activation.generation_id@)
    &&& activation.steps.deep_view() == activation_changes(
        basedir,
        activation.generation_id@,
        activation.pointer_id@,
        files,
        templates,
        values,
        sources,
        files_of(metadata@.active_generation, previous),
    )
}

/// Plans the installation of the generation `generation_id`, the link to
/// it being made under the name `pointer_id` before it is renamed over the
/// pointer.
pub fn stage_generation(
    basedir: &str,
    files: &Vec<SecretFile>,
    templates: &Vec<Template>,
    values: &Vec<Option<DecryptedValue>>,
    sources: &Vec<String>,
    metadata: FileSystemMetadata,
    previous: &Option<DeployedSecretsMetadata>,
    now: u64,
    generation_id: String,
    pointer_id: String,
) -> (planned: Result<Activation, Error>)
    ensures
        match planned {
            Ok(activation) => {
                &&& planning_error(files@, templates@, values@, sources@, metadata).is_none()
                &&& activation.generation_id@ == generation_id@
                &&& activation.pointer_id@ == pointer_id@
                &&& is_activation_of(
                    activation,
                    basedir@,
                    files@,
                    templates@,
                    values@,
                    sources@,
                    metadata,
                    *previous,
                    now,
                )
            },
            Err(error) => planning_error(files@, templates@, values@, sources@, metadata) == Some(
                error,
            ),
        },
{
    if files.len() != values.len() || templates.len() != sources.len() {
        return Err(Error::Inputs);
    }
    if !metadata.is_wf() {
        return Err(Error::Metadata);
    }
    let directory = get_generation_path(basedir, generation_id.as_str());
    let deployed = DeployedSecretsMetadata {
        generation: generation_id.clone(),
        secret_files: published_files(files, templates),
    };
    let mut steps: Vec<Step> = Vec::new();
    push_step(&mut steps, Step::CreateDirAll { path: directory.clone() });
    push_step(
        &mut steps,
        Step::WriteGenerationMetadata {
            path: get_generation_metadata_path(basedir, generation_id.as_str()),
        },
    );
    let table = stage_secrets(&mut steps, directory.as_str(), files, values);
    push_step(&mut steps, Step::CreateDirAll { path: chained(directory.as_str(), "/rendered") });
    stage_templates(&mut steps, directory.as_str(), templates, sources, &table);
    assert(steps.deep_view() =~= staging_changes(
        basedir@,
        generation_id@,
        files@,
        templates@,
        values@,
        sources@,
    ));
    let link = get_file_in(basedir, pointer_id.as_str());
    push_step(&mut steps, Step::Symlink { target: directory.clone(), link: link.clone() });
    push_step(&mut steps, Step::Rename { from: link, to: chained(basedir, "/secrets") });
    publish(&mut steps, basedir, directory.as_str(), files, templates);
    let ghost active = metadata@.active_generation;
    let mut metadata = metadata;
    let before = metadata.record(now, generation_id.as_str());
    match (before, previous) {
        (Some(_), Some(previous)) => {
            prune(&mut steps, &previous.secret_files, &deployed.secret_files)
        },
        _ => {
            assert(steps.deep_view() + removals(Seq::empty()) =~= steps.deep_view());
        },
    }
    push_step(
        &mut steps,
        Step::WriteFleetMetadata { path: chained(basedir, "/metadata.json"), lenient: true },
    );
    assert(steps.deep_view() =~= activation_changes(
        basedir@,
        generation_id@,
        pointer_id@,
        files@,
        templates@,
        values@,
        sources@,
        files_of(active, *previous),
    ));
    Ok(Activation { generation_id, pointer_id, deployed, metadata, steps })
}

/// A character of the alphabet in which ids are written: a digit or an
/// upper-case letter other than I, L, O and U.
pub open spec fn is_id_char(c: char) -> bool {
    ('0' <= c <= '9') || ('A' <= c <= 'Z' && c != 'I' && c != 'L' && c != 'O' && c != 'U')
}

/// The text is written as ids are: 26 characters of their alphabet.
pub open spec fn is_id(text: Seq<char>) -> bool {
    text.len() == 26 && forall|i: int| 0 <= i < text.len() ==> is_id_char(#[trigger] text[i])
}

/// `ulid::Ulid`: an id of 128 bits.
#[verifier::external_type_specification]
pub struct ExUlid(ulid::Ulid);

/// `ulid::Ulid::new`: an id made of the time and of random bits. Nothing is
/// said of which id it is.
pub assume_specification[ ulid::Ulid::new ]() -> ulid::Ulid
;

/// `ulid::Ulid::to_string`: the 26 characters, in Crockford's base 32, that
/// write an id.
pub assume_specification[ ulid::Ulid::to_string ](id: &ulid::Ulid) -> (text: String)
    ensures
        is_id(text@),
;

/// Plans the installation of a new generation: the secrets with the values
/// they decrypted to, the templates with their texts, the turn of the
/// pointer, the publishing, and the record of the base directory at the
/// time `now`. The id of the generation and the name of the temporary link
/// are made here, and are told in the plan.
pub fn activate_new_generation(
    basedir: &str,
    files: &Vec<SecretFile>,
    templates: &Vec<Template>,
    values: &Vec<Option<DecryptedValue>>,
    sources: &Vec<String>,
    metadata: FileSystemMetadata,
    previous: &Option<DeployedSecretsMetadata>,
    now: u64,
) -> (planned: Result<Activation, Error>)
    ensures
        match planned {
            Ok(activation) => {
                &&& planning_error(files@, templates@, values@, sources@, metadata).is_none()
                &&& is_id(activation.generation_id@)
                &&& is_id(activation.pointer_id@)
                &&& is_activation_of(
                    activation,
                    basedir@,
                    files@,
                    templates@,
                    values@,
                    sources@,
                    metadata,
                    *previous,
                    now,
                )
            },
            Err(error) => planning_error(files@, templates@, values@, sources@, metadata) == Some(
                error,
            ),
        },
{
    let generation_id = ulid::Ulid::new().to_string();
    let pointer_id = ulid::Ulid::new().to_string();
    stage_generation(
        basedir,
        files,
        templates,
        values,
        sources,
        metadata,
        previous,
        now,
        generation_id,
        pointer_id,
    )
}

} // verus!
