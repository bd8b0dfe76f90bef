//! The html page that hosts an application inside a native web view window.
use crate::dialog::file_dialogs::strs_view;
use crate::text::{decimal, push_decimal};
use vstd::prelude::*;
use vstd::string::*;

verus! {

/// Settings of the window that hosts an application: its title and size, the
/// port of the backend, and extra javascript and css put into the page.
#[derive(Debug)]
pub struct ViewBuilder {
    pub css: Vec<String>,
    pub js: Vec<String>,
    pub port: u16,
    pub title: String,
    pub width: i32,
    pub height: i32,
}

/// The start of the page's bootstrap script, up to the port of the backend.
pub const MAIN_JS_START: &'static str = "window.onload = function() { let pipe = new greenhorn.Pipe(\"ws://127.0.0.1:\" + ";

/// The rest of the page's bootstrap script, after the port of the backend.
pub const MAIN_JS_END: &'static str = ");\n            let dialog_handler = (app, dialog) => {\n                let in_msg = { 'Dialog': dialog };\n                external.invoke(JSON.stringify(in_msg));\n            };\n            let app = new greenhorn.App(pipe, document.body, dialog_handler);\n            window.app = app;\n        }";

/// The page up to the javascript library.
pub const PAGE_START: &'static str = "<!DOCTYPE html>\n        <html>\n            <head> <meta charset=\"UTF-8\">\n                <script>";

/// The page between the javascript library and the bootstrap script.
pub const PAGE_AFTER_LIB: &'static str = "</script>\n                <script>";

/// The page between the bootstrap script and the additional head elements.
pub const PAGE_AFTER_MAIN: &'static str = "</script>\n                ";

/// The end of the page, after the additional head elements.
pub const PAGE_END: &'static str = "\n            </head>\n            <body></body>\n        </html>";

/// Opens a script element.
pub const SCRIPT_OPEN: &'static str = "<script>";

/// Closes a script element.
pub const SCRIPT_CLOSE: &'static str = "</script>";

/// Opens a style element.
pub const STYLE_OPEN: &'static str = "<style>";

/// Closes a style element.
pub const STYLE_CLOSE: &'static str = "</style>";

/// The script that disables the context menu of the page.
pub const NO_CONTEXT_MENU: &'static str = "<script>window.oncontextmenu = (e) => { e.preventDefault(); }</script>";

/// A window builder taken by its views.
pub struct ViewBuilderView {
    pub css: Seq<Seq<char>>,
    pub js: Seq<Seq<char>>,
    pub port: u16,
    pub title: Seq<char>,
    pub width: i32,
    pub height: i32,
}

impl View for ViewBuilder {
    type V = ViewBuilderView;

    open spec fn view(&self) -> ViewBuilderView {
        ViewBuilderView {
            css: strs_view(self.css@),
            js: strs_view(self.js@),
            port: self.port,
            title: self.title@,
            width: self.width,
            height: self.height,
        }
    }
}

/// The bootstrap script, which connects the frontend to the backend at `port`.
pub open spec fn main_js(port: u16) -> Seq<char> {
    MAIN_JS_START@ + decimal(port as nat) + MAIN_JS_END@
}

/// A script element holding `js`.
pub open spec fn script_elem(js: Seq<char>) -> Seq<char> {
    SCRIPT_OPEN@ + js + SCRIPT_CLOSE@
}

/// A style element holding `css`.
pub open spec fn style_elem(css: Seq<char>) -> Seq<char> {
    STYLE_OPEN@ + css + STYLE_CLOSE@
}

/// The additional head elements: a script element for each script, then a
/// style element for each style sheet, then the script that disables the
/// context menu.
pub open spec fn head_elems(js: Seq<Seq<char>>, css: Seq<Seq<char>>) -> Seq<Seq<char>> {
    js.map_values(|x: Seq<char>| script_elem(x)) + css.map_values(|x: Seq<char>| style_elem(x))
        + seq![NO_CONTEXT_MENU@]
}

/// The items joined by line breaks.
pub open spec fn join_lines(items: Seq<Seq<char>>) -> Seq<char>
    decreases items.len(),
{
    if items.len() == 0 {
        Seq::empty()
    } else if items.len() == 1 {
        items[0]
    } else {
        join_lines(items.drop_last()) + seq!['\n'] + items.last()
    }
}

/// The whole page: the javascript library, the bootstrap script for `port`
/// and the additional head elements.
pub open spec fn page(js_lib: Seq<char>, port: u16, js: Seq<Seq<char>>, css: Seq<Seq<char>>) -> Seq<char> {
    PAGE_START@ + js_lib + PAGE_AFTER_LIB@ + main_js(port) + PAGE_AFTER_MAIN@
        + join_lines(head_elems(js, css)) + PAGE_END@
}

/// Appends a line break unless `out` holds no item yet, then the item.
fn push_line(out: &mut String, first: bool, open: &str, body: &str, close: &str)
    ensures
        final(out)@ == (if first { old(out)@ } else { old(out)@ + seq!['\n'] }) + open@ + body@
            + close@,
{
    if !first {
        out.append("\n");
        proof {
            reveal_strlit("\n");
        }
    }
    out.append(open);
    out.append(body);
    out.append(close);
}

/// Joining one more item.
proof fn lemma_join_push(items: Seq<Seq<char>>, x: Seq<char>)
    ensures
        join_lines(items.push(x)) == (if items.len() == 0 { x } else { join_lines(items) + seq!['\n'] + x }),
{
    assert(items.push(x).drop_last() =~= items);
}

impl ViewBuilder {
    /// A window of 400 by 300 pixels without title, scripts or style sheets,
    /// whose backend listens on port 44132.
    pub fn new() -> (res: Self)
        ensures
            res@.css.len() == 0,
            res@.js.len() == 0,
            res@.port == 44132,
            res@.title.len() == 0,
            res@.width == 400,
            res@.height == 300,
    {
        ViewBuilder {
            css: Vec::new(),
            js: Vec::new(),
            port: 44132,
            title: String::new(),
            width: 400,
            height: 300,
        }
    }

    /// Adds a style sheet to the page.
    pub fn css(self, css: &str) -> (res: Self)
        ensures
            res@ == (ViewBuilderView { css: self@.css.push(css@), ..self@ }),
    {
        let mut s = self;
        s.css.push(String::from_str(css));
        assert(strs_view(s.css@) =~= strs_view(self.css@).push(css@));
        s
    }

    /// Adds a script to the page.
    pub fn js(self, js: &str) -> (res: Self)
        ensures
            res@ == (ViewBuilderView { js: self@.js.push(js@), ..self@ }),
    {
        let mut s = self;
        s.js.push(String::from_str(js));
        assert(strs_view(s.js@) =~= strs_view(self.js@).push(js@));
        s
    }

    /// Sets the title of the window.
    pub fn title(self, title: &str) -> (res: Self)
        ensures
            res@ == (ViewBuilderView { title: title@, ..self@ }),
    {
        let mut s = self;
        s.title = String::from_str(title);
        s
    }

    /// Sets the size of the window.
    pub fn size(self, width: i32, height: i32) -> (res: Self)
        ensures
            res@ == (ViewBuilderView { width, height, ..self@ }),
    {
        let mut s = self;
        s.width = width;
        s.height = height;
        s
    }

    /// The html page of the window: the javascript library `js_lib`, the
    /// bootstrap script that connects to the backend at `port`, the scripts
    /// and style sheets that were added, and a script that disables the
    /// context menu.
    pub fn format_html(&self, port: u16, js_lib: &str) -> (res: String)
        ensures
            res@ == page(js_lib@, port, self@.js, self@.css),
    {
        let ghost js_v = self@.js;
        let ghost css_v = self@.css;
        let ghost scripts = js_v.map_values(|x: Seq<char>| script_elem(x));
        let ghost styles = css_v.map_values(|x: Seq<char>| style_elem(x));
        proof {
            reveal_strlit("<script>");
            reveal_strlit("</script>");
            reveal_strlit("<style>");
            reveal_strlit("</style>");
        }
        let mut additional = String::new();
        let mut first = true;
        let mut i: usize = 0;
        while i < self.js.len()
            invariant
                0 <= i <= self.js.len(),
                js_v == strs_view(self.js@),
                scripts == js_v.map_values(|x: Seq<char>| script_elem(x)),
                first == (i == 0),
                additional@ == join_lines(scripts.take(i as int)),
            decreases self.js.len() - i,
        {
            push_line(&mut additional, first, SCRIPT_OPEN, self.js[i].as_str(), SCRIPT_CLOSE);
            proof {
                lemma_join_push(scripts.take(i as int), script_elem(js_v[i as int]));
                assert(scripts.take(i as int).push(script_elem(js_v[i as int])) =~= scripts.take(
                    i + 1,
                ));
            }
            first = false;
            i = i + 1;
        }
        assert(scripts.take(i as int) =~= scripts);
        let mut k: usize = 0;
        while k < self.css.len()
            invariant
                0 <= k <= self.css.len(),
                css_v == strs_view(self.css@),
                styles == css_v.map_values(|x: Seq<char>| style_elem(x)),
                first == (scripts.len() + k == 0),
                additional@ == join_lines(scripts + styles.take(k as int)),
            decreases self.css.len() - k,
        {
            push_line(&mut additional, first, STYLE_OPEN, self.css[k].as_str(), STYLE_CLOSE);
            proof {
                lemma_join_push(scripts + styles.take(k as int), style_elem(css_v[k as int]));
                assert((scripts + styles.take(k as int)).push(style_elem(css_v[k as int])) =~= scripts
                    + styles.take(k + 1));
            }
            first = false;
            k = k + 1;
        }
        assert(styles.take(k as int) =~= styles);
        push_line(&mut additional, first, "", NO_CONTEXT_MENU, "");
        proof {
            reveal_strlit("");
            lemma_join_push(scripts + styles, NO_CONTEXT_MENU@);
            assert((scripts + styles).push(NO_CONTEXT_MENU@) =~= head_elems(js_v, css_v));
        }
        let mut out = String::new();
        out.append(PAGE_START);
        out.append(js_lib);
        out.append(PAGE_AFTER_LIB);
        out.append(MAIN_JS_START);
        push_decimal(port as u64, &mut out);
        out.append(MAIN_JS_END);
        out.append(PAGE_AFTER_MAIN);
        out.append(additional.as_str());
        out.append(PAGE_END);
        assert(out@ =~= page(js_lib@, port, js_v, css_v));
        out
    }
}

} // verus!
