//! A service reporting the position and size of a DOM element.
use handlebars::{Handlebars, RenderError};
use std::collections::BTreeMap;
use vstd::prelude::*;
use vstd::string::*;

verus! {

/// The position and size of an element, in pixels.
#[derive(Debug, Clone, Copy, PartialEq, Eq, Structural)]
pub struct ElementSize {
    pub x: i32,
    pub y: i32,
    pub dx: i32,
    pub dy: i32,
}

/// The javascript run by the service in the frontend; `{{element_id}}` stands
/// for the html id of the observed element.
pub const ELEMENT_SIZE_JS: &'static str = r#"
(function(ctx) {
    let size = [-1, -1, -1,-1];
    setInterval(function() {
        var elem = document.getElementById("{{element_id}}");
        var dx = elem.offsetWidth;
        var dy = elem.offsetHeight;
        var rect = elem.getBoundingClientRect();
        var x = rect.left;
        var y = rect.top;
        if (size[0] != x || size[1] != y || size[2] != dx || size[3] != dy) {
            size[0] = x;
            size[1] = y;
            size[2] = dx;
            size[3] = dy;
            var data = JSON.stringify({
                "x": x,
                "y": y,
                "dx": dx,
                "dy": dy
            });
            ctx.send(data);
        }
    }, 50);
})(ctx);
"#;

/// The error of a template rendering.
#[verifier::external_type_specification]
#[verifier::external_body]
pub struct ExRenderError(RenderError);

/// What a default `Handlebars` registry renders from `template` with the data
/// `{ "element_id": element_id }`: `None` when the rendering fails.
pub uninterp spec fn handlebars_element_template(template: Seq<char>, element_id: Seq<char>) -> Option<
    Seq<char>,
>;

/// `Handlebars::render_template` of a new (default) registry, with the data
/// `{ "element_id": element_id }`. The contract only names the result: it is a
/// function of the two strings, rendered by the handlebars crate (which escapes
/// the id for HTML by default).
#[verifier::external_body]
fn render_element_template(template: &str, element_id: &str) -> (res: Result<String, RenderError>)
    ensures
        match res {
            Ok(s) => handlebars_element_template(template@, element_id@) == Some(s@),
            Err(_) => handlebars_element_template(template@, element_id@) is None,
        },
{
    let mut data = BTreeMap::new();
    data.insert("element_id", element_id);
    Handlebars::new().render_template(template, &data)
}

/// The error of building the javascript of the service.
#[derive(Debug)]
pub enum ScriptError {
    Template(RenderError),
}

/// Reports the position and size of the element with a given html id.
#[derive(Debug)]
pub struct ElementSizeNotifier {
    html_id: String,
}

impl ElementSizeNotifier {
    /// The html id of the observed element.
    pub closed spec fn spec_html_id(&self) -> Seq<char> {
        self.html_id@
    }

    /// A service observing the element with the given html id.
    pub fn new(html_id: &str) -> (res: Self)
        ensures
            res.spec_html_id() == html_id@,
    {
        Self { html_id: String::from_str(html_id) }
    }

    /// The javascript run in the frontend: the template of the service with the
    /// html id of the observed element filled in.
    pub fn script(&self) -> (res: Result<String, ScriptError>)
        ensures
            match res {
                Ok(s) => handlebars_element_template(ELEMENT_SIZE_JS@, self.spec_html_id()) == Some(
                    s@,
                ),
                Err(_) => handlebars_element_template(ELEMENT_SIZE_JS@, self.spec_html_id()) is None,
            },
    {
        match render_element_template(ELEMENT_SIZE_JS, self.html_id.as_str()) {
            Ok(s) => Ok(s),
            Err(e) => Err(ScriptError::Template(e)),
        }
    }
}

} // verus!
