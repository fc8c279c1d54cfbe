//! The template renderer, behind one trusted call.
//!
//! Text files run through a mustache-style engine in strict mode: a
//! reference to a variable that the map does not hold fails the render, and
//! nothing is HTML-escaped.  The engine's output is named by the spec
//! function `render_of`; the library claims nothing about its shape beyond
//! what the engine's own behaviour guarantees, namely that it depends on
//! the name the template is registered under, the template text, and the
//! variable map alone.  The name matters: a template can refer to itself as
//! a partial by its registered name, and such a reference fails where a
//! reference to any other name can fall back to an inline partial or a
//! partial block's body.

use vstd::prelude::*;
use std::collections::BTreeMap;
use crate::vars::VarMap;

verus! {

/// What the engine produces for a template registered under a name and
/// rendered with a variable map: `None` when strict-mode rendering fails
/// (a syntax error, a reference to an absent variable, or an unresolvable
/// partial reference), the expanded text otherwise.
pub uninterp spec fn render_of(
    name: Seq<char>,
    template: Seq<char>,
    vars: Map<Seq<char>, Seq<char>>,
) -> Option<Seq<char>>;

/// Relies on `handlebars::Handlebars`: `new`, `set_strict_mode`,
/// `register_escape_fn(no_escape)`, `register_template_string` and `render`.
/// The registry is fresh and holds this one template, so the output is a
/// function of the registered name, the template text and the variable
/// pairs alone; the data handed over is the map of the pairs, later pairs
/// winning as in the view of `VarMap`.
#[verifier::external_body]
pub fn render_template(name: &str, template: &str, vars: &VarMap) -> (out: Option<String>)
    ensures
        match out {
            Some(s) => render_of(name@, template@, vars@) == Some(s@),
            None => render_of(name@, template@, vars@) is None,
        },
{
    let mut registry = handlebars::Handlebars::new();
    registry.set_strict_mode(true);
    registry.register_escape_fn(handlebars::no_escape);
    if registry.register_template_string(name, template).is_err() {
        return None;
    }
    let data: BTreeMap<String, String> = vars.entries().iter().cloned().collect();
    registry.render(name, &data).ok()
}

} // verus!
