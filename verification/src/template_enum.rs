//! The built-in templates and the names by which they are chosen.
use vstd::prelude::*;

use crate::text::chars_of;

verus! {

/// A built-in template.
#[derive(Clone, Copy, Debug, PartialEq, Eq, Structural)]
pub enum Template {
    /// A dark template for mobile phones
    MobileDark,
    /// A light template for mobile phones
    MobileLight,
    /// A dark template for tablets
    TabletDark,
    /// A light template for tablets
    TabletLight,
    /// A dark template for laptops and desktops
    WidescreenDark,
    /// A light template for laptops and desktops
    WidescreenLight,
    /// A dark widescreen template with a cutout for browser and taskbar chrome
    WidescreenCutDark,
    /// A light widescreen template with a cutout for browser and taskbar chrome
    WidescreenCutLight,
    /// A dark template for A4 paper printing
    PrintA4Dark,
    /// A light template for A4 paper printing
    PrintA4Light,
    /// A clean white template for standard A4 printing, the default
    PrintA4,
}

/// The name by which a template is chosen.
pub open spec fn template_name(t: Template) -> Seq<char> {
    match t {
        Template::MobileDark => "mobile-dark"@,
        Template::MobileLight => "mobile-light"@,
        Template::TabletDark => "tablet-dark"@,
        Template::TabletLight => "tablet-light"@,
        Template::WidescreenDark => "widescreen-dark"@,
        Template::WidescreenLight => "widescreen-light"@,
        Template::WidescreenCutDark => "widescreen-cut-dark"@,
        Template::WidescreenCutLight => "widescreen-cut-light"@,
        Template::PrintA4Dark => "print-a4-dark"@,
        Template::PrintA4Light => "print-a4-light"@,
        Template::PrintA4 => "print-a4"@,
    }
}

/// The template a name chooses, if any.
pub open spec fn template_named(n: Seq<char>) -> Option<Template> {
    if n == "mobile-dark"@ {
        Some(Template::MobileDark)
    } else if n == "mobile-light"@ {
        Some(Template::MobileLight)
    } else if n == "tablet-dark"@ {
        Some(Template::TabletDark)
    } else if n == "tablet-light"@ {
        Some(Template::TabletLight)
    } else if n == "widescreen-dark"@ {
        Some(Template::WidescreenDark)
    } else if n == "widescreen-light"@ {
        Some(Template::WidescreenLight)
    } else if n == "widescreen-cut-dark"@ {
        Some(Template::WidescreenCutDark)
    } else if n == "widescreen-cut-light"@ {
        Some(Template::WidescreenCutLight)
    } else if n == "print-a4-dark"@ {
        Some(Template::PrintA4Dark)
    } else if n == "print-a4-light"@ {
        Some(Template::PrintA4Light)
    } else if n == "print-a4"@ {
        Some(Template::PrintA4)
    } else {
        None
    }
}

/// Whether two texts are equal.
pub fn same_text(a: &str, b: &str) -> (r: bool)
    ensures
        r == (a@ == b@),
{
    let x = chars_of(a);
    let y = chars_of(b);
    if x.len() != y.len() {
        return false;
    }
    let mut i: usize = 0;
    while i < x.len()
        invariant
            i <= x.len(),
            x.len() == y.len(),
            x@ == a@,
            y@ == b@,
            forall|k: int| 0 <= k < i ==> x@[k] == y@[k],
        decreases x.len() - i,
    {
        if x[i] != y[i] {
            assert(x@[i as int] != y@[i as int]);
            return false;
        }
        i += 1;
    }
    assert(x@ =~= y@);
    true
}

impl Template {
    /// The name by which this template is chosen.
    pub fn name(&self) -> (n: &'static str)
        ensures
            n@ == template_name(*self),
    {
        match self {
            Template::MobileDark => "mobile-dark",
            Template::MobileLight => "mobile-light",
            Template::TabletDark => "tablet-dark",
            Template::TabletLight => "tablet-light",
            Template::WidescreenDark => "widescreen-dark",
            Template::WidescreenLight => "widescreen-light",
            Template::WidescreenCutDark => "widescreen-cut-dark",
            Template::WidescreenCutLight => "widescreen-cut-light",
            Template::PrintA4Dark => "print-a4-dark",
            Template::PrintA4Light => "print-a4-light",
            Template::PrintA4 => "print-a4",
        }
    }

    /// The template that `name` chooses, if any.
    pub fn from_name(name: &str) -> (t: Option<Template>)
        ensures
            t == template_named(name@),
    {
        if same_text(name, "mobile-dark") {
            Some(Template::MobileDark)
        } else if same_text(name, "mobile-light") {
            Some(Template::MobileLight)
        } else if same_text(name, "tablet-dark") {
            Some(Template::TabletDark)
        } else if same_text(name, "tablet-light") {
            Some(Template::TabletLight)
        } else if same_text(name, "widescreen-dark") {
            Some(Template::WidescreenDark)
        } else if same_text(name, "widescreen-light") {
            Some(Template::WidescreenLight)
        } else if same_text(name, "widescreen-cut-dark") {
            Some(Template::WidescreenCutDark)
        } else if same_text(name, "widescreen-cut-light") {
            Some(Template::WidescreenCutLight)
        } else if same_text(name, "print-a4-dark") {
            Some(Template::PrintA4Dark)
        } else if same_text(name, "print-a4-light") {
            Some(Template::PrintA4Light)
        } else if same_text(name, "print-a4") {
            Some(Template::PrintA4)
        } else {
            None
        }
    }
}

/// Every template is chosen by its name, and a name chooses only the template it names.
pub proof fn lemma_template_names(t: Template, n: Seq<char>)
    ensures
        template_named(template_name(t)) == Some(t),
        template_named(n) == Some(t) ==> template_name(t) == n,
{
    reveal_strlit("mobile-dark");
    reveal_strlit("mobile-light");
    reveal_strlit("tablet-dark");
    reveal_strlit("tablet-light");
    reveal_strlit("widescreen-dark");
    reveal_strlit("widescreen-light");
    reveal_strlit("widescreen-cut-dark");
    reveal_strlit("widescreen-cut-light");
    reveal_strlit("print-a4-dark");
    reveal_strlit("print-a4-light");
    reveal_strlit("print-a4");
    let names = seq![
        "mobile-dark"@,
        "mobile-light"@,
        "tablet-dark"@,
        "tablet-light"@,
        "widescreen-dark"@,
        "widescreen-light"@,
        "widescreen-cut-dark"@,
        "widescreen-cut-light"@,
        "print-a4-dark"@,
        "print-a4-light"@,
        "print-a4"@,
    ];
    assert(names[0][0] != names[2][0]);
    assert(names[1][0] != names[3][0]);
    assert forall|i: int, j: int| 0 <= i < j < 11 implies names[i] != names[j] by {
        if names[i].len() == names[j].len() {
            assert(names[i][0] != names[j][0]);
        }
    }
}

}
