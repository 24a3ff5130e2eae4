//! The templates from which a new migration file is made.

use crate::text::same_text;
use vstd::prelude::*;

verus! {

/// What stands in a template where the description of the migration belongs.
pub const PLACEHOLDER: &'static str = "{{DESCRIPTION}}";

/// What a new migration in Bash holds.
pub const BASH: &'static str =
    "#!/usr/bin/env bash\n# {{DESCRIPTION}}\nset -euo pipefail\n\ncd \"$MIGRATE_PROJECT_ROOT\"\n";

/// What a new migration in TypeScript holds.
pub const TYPESCRIPT: &'static str =
    "#!/usr/bin/env -S npx tsx\n// {{DESCRIPTION}}\n\nconst root = process.env.MIGRATE_PROJECT_ROOT ?? \".\";\nprocess.chdir(root);\n";

/// What a new migration in Python holds.
pub const PYTHON: &'static str =
    "#!/usr/bin/env python3\n# {{DESCRIPTION}}\nimport os\n\nos.chdir(os.environ.get(\"MIGRATE_PROJECT_ROOT\", \".\"))\n";

/// What a new migration in JavaScript holds.
pub const NODE: &'static str =
    "#!/usr/bin/env node\n// {{DESCRIPTION}}\n\nprocess.chdir(process.env.MIGRATE_PROJECT_ROOT || \".\");\n";

/// What a new migration in Ruby holds.
pub const RUBY: &'static str =
    "#!/usr/bin/env ruby\n# {{DESCRIPTION}}\n\nDir.chdir(ENV.fetch(\"MIGRATE_PROJECT_ROOT\", \".\"))\n";

/// A template for new migration files.
#[derive(Debug, Clone, Copy)]
pub struct Template {
    /// The name by which the template is asked for, such as `bash`.
    pub name: &'static str,
    /// What the name of the new file ends with, such as `.sh`.
    pub extension: &'static str,
    /// What the new file holds, with `PLACEHOLDER` for the description.
    pub content: &'static str,
}

/// What a `Template` holds.
pub struct TemplateView {
    pub name: Seq<char>,
    pub extension: Seq<char>,
    pub content: Seq<char>,
}

impl View for Template {
    type V = TemplateView;

    open spec fn view(&self) -> TemplateView {
        TemplateView { name: self.name@, extension: self.extension@, content: self.content@ }
    }
}

impl DeepView for Template {
    type V = TemplateView;

    open spec fn deep_view(&self) -> TemplateView {
        self@
    }
}

/// The templates, in the order in which they are listed.
pub open spec fn all_templates() -> Seq<TemplateView> {
    seq![
        TemplateView { name: "bash"@, extension: ".sh"@, content: BASH@ },
        TemplateView { name: "ts"@, extension: ".ts"@, content: TYPESCRIPT@ },
        TemplateView { name: "python"@, extension: ".py"@, content: PYTHON@ },
        TemplateView { name: "node"@, extension: ".js"@, content: NODE@ },
        TemplateView { name: "ruby"@, extension: ".rb"@, content: RUBY@ },
    ]
}

/// The first of `templates` with the name `name`.
pub open spec fn named(templates: Seq<TemplateView>, name: Seq<char>) -> Option<TemplateView>
    decreases templates.len(),
{
    if templates.len() == 0 {
        None
    } else if templates[0].name == name {
        Some(templates[0])
    } else {
        named(templates.skip(1), name)
    }
}

/// The templates, in the order in which they are listed.
pub fn templates() -> (r: Vec<Template>)
    ensures
        r.deep_view() == all_templates(),
{
    let mut r: Vec<Template> = Vec::new();
    r.push(Template { name: "bash", extension: ".sh", content: BASH });
    r.push(Template { name: "ts", extension: ".ts", content: TYPESCRIPT });
    r.push(Template { name: "python", extension: ".py", content: PYTHON });
    r.push(Template { name: "node", extension: ".js", content: NODE });
    r.push(Template { name: "ruby", extension: ".rb", content: RUBY });
    assert(r.deep_view() =~= all_templates());
    r
}

/// The template with the name `name`, if there is one.
pub fn get_template(name: &str) -> (r: Option<Template>)
    ensures
        r.deep_view() == named(all_templates(), name@),
{
    let all = templates();
    let mut i: usize = 0;
    assert(all.deep_view().skip(0) == all.deep_view());
    while i < all.len()
        invariant
            i <= all.len(),
            all.deep_view() == all_templates(),
            named(all_templates(), name@) == named(all.deep_view().skip(i as int), name@),
        decreases all.len() - i,
    {
        proof {
            let rest = all.deep_view().skip(i as int);
            assert(rest[0] == all[i as int]@);
            assert(rest.skip(1) == all.deep_view().skip(i + 1));
        }
        if same_text(all[i].name, name) {
            return Some(all[i]);
        }
        i = i + 1;
    }
    None
}

/// The names of `templates`, in their order.
pub open spec fn names_of(templates: Seq<TemplateView>) -> Seq<Seq<char>> {
    templates.map_values(|t: TemplateView| t.name)
}

/// The names of the templates, in the order in which they are listed.
pub fn list_templates() -> (r: Vec<&'static str>)
    ensures
        r.deep_view() == names_of(all_templates()),
{
    let all = templates();
    let mut r: Vec<&'static str> = Vec::new();
    let mut i: usize = 0;
    while i < all.len()
        invariant
            i <= all.len(),
            all.deep_view() == all_templates(),
            r.deep_view() == names_of(all_templates()).take(i as int),
        decreases all.len() - i,
    {
        let ghost before = r.deep_view();
        let name = all[i].name;
        r.push(name);
        proof {
            let names = names_of(all_templates());
            assert(all.deep_view()[i as int] == all[i as int]@);
            assert(names[i as int] == name@);
            assert(r.deep_view() =~= before.push(name@));
            assert(names.take(i + 1) =~= names.take(i as int).push(names[i as int]));
        }
        i = i + 1;
    }
    assert(names_of(all_templates()).take(all.len() as int) == names_of(all_templates()));
    r
}

} // verus!
