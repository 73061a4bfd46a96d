use instaling_bot::translator_patched::{parse_result, Translator};

#[test]
fn request_url_format() {
    let t = Translator { to: "en", from: "pl" };
    assert_eq!(t.request_url("kot"), "https://translate.google.com/m?tl=en&sl=pl&q=kot");
}

#[test]
fn translate_reads_result_element() {
    let t = Translator { to: "en", from: "pl" };
    let page = "<html><body><div class=\"result-container\">cat, tomcat</div></body></html>".to_string();
    assert_eq!(t.translate(Ok(page)), Ok("cat, tomcat".to_string()));
}

#[test]
fn translate_without_result_element() {
    let t = Translator { to: "en", from: "pl" };
    let page = "<html><body><div class=\"other\">x</div></body></html>".to_string();
    assert_eq!(t.translate(Ok(page)), Err("unexcepted error.".to_string()));
}

#[test]
fn same_page_same_translation() {
    let english = Translator { to: "en", from: "pl" };
    let german = Translator { to: "de", from: "pl" };
    let page = "<div class=\"result-container\">Katze</div>".to_string();
    let first = english.translate(Ok(page.clone()));
    let second = german.translate(Ok(page.clone()));
    assert_eq!(first, second);
    assert_eq!(english.translate(Ok(page)), first);
}

#[test]
fn translate_passes_fetch_error() {
    assert_eq!(parse_result(Err("timeout".to_string())), Err("timeout".to_string()));
}

#[test]
fn parse_result_reads_result_element() {
    let page = "<p class=\"result-container\">dog</p>".to_string();
    assert_eq!(parse_result(Ok(page)), Ok("dog".to_string()));
}

#[test]
fn try_translate_on_pages_known_to_parse() {
    let t = Translator { to: "en", from: "pl" };
    assert_eq!(t.try_translate(Err("timeout".to_string())), Some(Err("timeout".to_string())));
    assert_eq!(
        t.try_translate(Ok("plain text, no markup".to_string())),
        Some(Err("unexcepted error.".to_string()))
    );
    let page = "<div class=\"result-container\">cat</div>".to_string();
    assert_eq!(t.try_translate(Ok(page)), None);
}
