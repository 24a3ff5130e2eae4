//! What `create` writes: a new migration file from a template.

use crate::templates::{
    all_templates, get_template, list_templates, named, names_of, PLACEHOLDER,
};
use crate::text::{replace, replaced};
use vstd::prelude::*;
use vstd::string::StringExecFns;

verus! {

/// What stands for the description of a migration that was given none.
pub const NO_DESCRIPTION: &'static str = "TODO: Add description";

/// Why no migration file is made.
#[derive(Debug)]
pub enum CreateError {
    /// No name was given for the migration.
    MissingName,
    /// There is no template with the name `name`.
    UnknownTemplate { name: String },
    /// The directory holds a file with the name `file_name` already.
    AlreadyExists { file_name: String },
}

/// What a `CreateError` holds.
pub enum CreateErrorView {
    MissingName,
    UnknownTemplate { name: Seq<char> },
    AlreadyExists { file_name: Seq<char> },
}

impl View for CreateError {
    type V = CreateErrorView;

    open spec fn view(&self) -> CreateErrorView {
        match self {
            CreateError::MissingName => CreateErrorView::MissingName,
            CreateError::UnknownTemplate { name } => CreateErrorView::UnknownTemplate {
                name: name@,
            },
            CreateError::AlreadyExists { file_name } => CreateErrorView::AlreadyExists {
                file_name: file_name@,
            },
        }
    }
}

/// The names, with a comma and a space between each two.
pub open spec fn listed(names: Seq<Seq<char>>) -> Seq<char>
    decreases names.len(),
{
    if names.len() == 0 {
        Seq::empty()
    } else if names.len() == 1 {
        names[0]
    } else {
        listed(names.drop_last()) + ", "@ + names.last()
    }
}

impl CreateErrorView {
    /// The words in which the error is told.
    pub open spec fn message(self) -> Seq<char> {
        match self {
            CreateErrorView::MissingName =>
                "Migration name is required. Usage: migrate create <name>"@,
            CreateErrorView::UnknownTemplate { name } => "Unknown template '"@ + name
                + "'. Available: "@ + listed(names_of(all_templates())),
            CreateErrorView::AlreadyExists { file_name } => "Migration file already exists: "@
                + file_name,
        }
    }
}

impl CreateError {
    /// The words in which the error is told.
    pub fn message(&self) -> (r: String)
        ensures
            r@ == self@.message(),
    {
        match self {
            CreateError::MissingName => {
                "Migration name is required. Usage: migrate create <name>".to_owned()
            },
            CreateError::UnknownTemplate { name } => {
                let mut r = "Unknown template '".to_owned();
                r.append(name.as_str());
                r.append("'. Available: ");
                let names = list_templates();
                let ghost head = r@;
                let ghost all = names.deep_view();
                let mut i: usize = 0;
                assert(all.take(0) == Seq::<Seq<char>>::empty());
                assert(head + Seq::<char>::empty() == head);
                while i < names.len()
                    invariant
                        i <= names.len(),
                        all == names.deep_view(),
                        r@ == head + listed(all.take(i as int)),
                    decreases names.len() - i,
                {
                    proof {
                        let upto = all.take(i + 1);
                        assert(upto.drop_last() == all.take(i as int));
                        assert(upto.last() == names[i as int]@);
                        if i > 0 {
                            assert(head + (listed(all.take(i as int)) + ", "@ + names[i as int]@)
                                == head + listed(all.take(i as int)) + ", "@ + names[i as int]@);
                        } else {
                            assert(upto[0] == names[i as int]@);
                        }
                    }
                    if i > 0 {
                        r.append(", ");
                    }
                    r.append(names[i]);
                    i = i + 1;
                }
                assert(all.take(names.len() as int) == all);
                r
            },
            CreateError::AlreadyExists { file_name } => {
                let mut r = "Migration file already exists: ".to_owned();
                r.append(file_name.as_str());
                r
            },
        }
    }
}

/// A file that is to be written.
#[derive(Debug)]
pub struct NewFile {
    pub file_name: String,
    pub content: String,
}

/// What a `NewFile` holds.
pub struct NewFileView {
    pub file_name: Seq<char>,
    pub content: Seq<char>,
}

impl View for NewFile {
    type V = NewFileView;

    open spec fn view(&self) -> NewFileView {
        NewFileView { file_name: self.file_name@, content: self.content@ }
    }
}

/// What `create` comes to.
#[derive(Debug)]
pub enum Created {
    /// The names of the templates, to be listed.
    Templates(Vec<&'static str>),
    /// The migration file, to be written.
    File(NewFile),
}

/// What a `Created` holds.
pub enum CreatedView {
    Templates(Seq<Seq<char>>),
    File(NewFileView),
}

impl View for Created {
    type V = CreatedView;

    open spec fn view(&self) -> CreatedView {
        match self {
            Created::Templates(names) => CreatedView::Templates(names.deep_view()),
            Created::File(file) => CreatedView::File(file@),
        }
    }
}

/// The name of the file of the migration `name` with the version `version`.
pub open spec fn file_name_of(version: Seq<char>, name: Seq<char>, extension: Seq<char>) -> Seq<
    char,
> {
    version + "-"@ + name + extension
}

/// Whether one of `names` is `name`.
pub open spec fn is_taken(names: Seq<Seq<char>>, name: Seq<char>) -> bool {
    exists|i: int| 0 <= i < names.len() && #[trigger] names[i] == name
}

/// What `create` comes to. Where the templates are to be listed, nothing else
/// is looked at. Else a name is needed, then a template that there is, and then
/// a file name that the directory does not hold yet.
pub open spec fn created(
    list: bool,
    name: Option<Seq<char>>,
    template_name: Seq<char>,
    description: Option<Seq<char>>,
    version: Seq<char>,
    existing: Seq<Seq<char>>,
) -> Result<CreatedView, CreateErrorView> {
    if list {
        Ok(CreatedView::Templates(names_of(all_templates())))
    } else if name is None {
        Err(CreateErrorView::MissingName)
    } else {
        match named(all_templates(), template_name) {
            None => Err(CreateErrorView::UnknownTemplate { name: template_name }),
            Some(template) => {
                let file_name = file_name_of(version, name->0, template.extension);
                if is_taken(existing, file_name) {
                    Err(CreateErrorView::AlreadyExists { file_name })
                } else {
                    Ok(
                        CreatedView::File(
                            NewFileView {
                                file_name,
                                content: replaced(
                                    template.content,
                                    PLACEHOLDER@,
                                    match description {
                                        Some(text) => text,
                                        None => NO_DESCRIPTION@,
                                    },
                                ),
                            },
                        ),
                    )
                }
            },
        }
    }
}

fn taken(names: &[String], name: &String) -> (r: bool)
    ensures
        r == is_taken(names.deep_view(), name@),
{
    let mut i: usize = 0;
    while i < names.len()
        invariant
            i <= names.len(),
            forall|j: int| 0 <= j < i ==> #[trigger] names.deep_view()[j] != name@,
        decreases names.len() - i,
    {
        if names[i] == *name {
            assert(names.deep_view()[i as int] == name@);
            return true;
        }
        i = i + 1;
    }
    false
}

/// What `create` comes to: the names of the templates where `list` is set, and
/// else the file of a new migration with the version `version`. `existing` are
/// the names that the migrations directory holds.
pub fn plan(
    list: bool,
    name: Option<&str>,
    template_name: &str,
    description: Option<&str>,
    version: &str,
    existing: &[String],
) -> (r: Result<Created, CreateError>)
    ensures
        match r {
            Ok(c) => created(
                list,
                name.deep_view(),
                template_name@,
                description.deep_view(),
                version@,
                existing.deep_view(),
            ) == Ok::<CreatedView, CreateErrorView>(c@),
            Err(e) => created(
                list,
                name.deep_view(),
                template_name@,
                description.deep_view(),
                version@,
                existing.deep_view(),
            ) == Err::<CreatedView, CreateErrorView>(e@),
        },
{
    if list {
        return Ok(Created::Templates(list_templates()));
    }
    let name = match name {
        Some(name) => name,
        None => {
            return Err(CreateError::MissingName);
        },
    };
    let template = match get_template(template_name) {
        Some(template) => template,
        None => {
            return Err(CreateError::UnknownTemplate { name: template_name.to_owned() });
        },
    };
    let mut file_name = version.to_owned();
    file_name.append("-");
    file_name.append(name);
    file_name.append(template.extension);
    if taken(existing, &file_name) {
        return Err(CreateError::AlreadyExists { file_name });
    }
    let text = match description {
        Some(text) => text,
        None => NO_DESCRIPTION,
    };
    let content = replace(template.content, PLACEHOLDER, text);
    Ok(Created::File(NewFile { file_name, content }))
}

} // verus!
