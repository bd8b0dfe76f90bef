use greenhorn::web_view::ViewBuilder;

const MAIN_JS_4000: &str = "window.onload = function() { let pipe = new greenhorn.Pipe(\"ws://127.0.0.1:\" + 4000);
            let dialog_handler = (app, dialog) => {
                let in_msg = { 'Dialog': dialog };
                external.invoke(JSON.stringify(in_msg));
            };
            let app = new greenhorn.App(pipe, document.body, dialog_handler);
            window.app = app;
        }";

fn page(js_lib: &str, main: &str, additional: &str) -> String {
    format!(
        "<!DOCTYPE html>
        <html>
            <head> <meta charset=\"UTF-8\">
                <script>{}</script>
                <script>{}</script>
                {}
            </head>
            <body></body>
        </html>",
        js_lib, main, additional
    )
}

const NO_MENU: &str = "<script>window.oncontextmenu = (e) => { e.preventDefault(); }</script>";

#[test]
fn defaults() {
    let v = ViewBuilder::new();
    assert!(v.css.is_empty());
    assert!(v.js.is_empty());
    assert_eq!(v.port, 44132);
    assert_eq!(v.title, "");
    assert_eq!((v.width, v.height), (400, 300));
}

#[test]
fn builder_methods() {
    let v = ViewBuilder::new().css("a{}").css("b{}").js("x()").title("Todo").size(800, 600);
    assert_eq!(v.css, vec!["a{}".to_string(), "b{}".to_string()]);
    assert_eq!(v.js, vec!["x()".to_string()]);
    assert_eq!(v.title, "Todo");
    assert_eq!((v.width, v.height), (800, 600));
}

#[test]
fn page_without_extras() {
    let html = ViewBuilder::new().format_html(4000, "LIB");
    assert_eq!(html, page("LIB", MAIN_JS_4000, NO_MENU));
}

#[test]
fn page_with_scripts_and_styles() {
    let html = ViewBuilder::new().css("body{}").js("a();").js("b();").format_html(4000, "");
    let additional = format!("<script>a();</script>\n<script>b();</script>\n<style>body{{}}</style>\n{}", NO_MENU);
    assert_eq!(html, page("", MAIN_JS_4000, &additional));
    assert!(ViewBuilder::new().format_html(7, "").contains("\"ws://127.0.0.1:\" + 7);"));
}
