//! The translation page reader: the address of the page that translates a
//! text, and the translation that a fetched page holds.

use vstd::prelude::*;
use crate::text::chars_of;

verus! {

/// The inner text of the first element of class `class` in the HTML `body`,
/// as `tl` 0.2 parses it; `None` when no element has that class.
pub uninterp spec fn html_class_text(body: Seq<char>, class: Seq<char>) -> Option<Seq<char>>;

/// `tl` 0.2.1's `parse` returns on the text: it neither panics (as it does on
/// a text that ends inside a tag's attribute list, such as `<a `) nor runs
/// forever (as it does on a lone `<`).
pub uninterp spec fn tl_parse_returns(body: Seq<char>) -> bool;

/// `tl::parse`, `VDom::get_elements_by_class_name` and the first element's
/// `inner_text`: the text named by `html_class_text`, for a body that `tl`
/// can parse.  A body without `<` is one of them: `parse_single` then only
/// skips spaces and reads raw text up to the end, and never enters `parse_tag`.
/// Once the call has come back, `parse` has returned on the body.
#[verifier::external_body]
fn first_text_of_class(body: &str, class: &str) -> (r: Option<String>)
    requires
        tl_parse_returns(body@) || !body@.contains('<'),
    ensures
        match r {
            Some(t) => tl_parse_returns(body@) && html_class_text(body@, class@) == Some(t@),
            None => tl_parse_returns(body@) && html_class_text(body@, class@) is None,
        },
{
    match tl::parse(body).get_elements_by_class_name(class) {
        Some(elements) => Some(elements[0].inner_text().into_owned()),
        None => None,
    }
}

/// The class of the element that holds the translation.
pub open spec fn result_class() -> Seq<char> {
    "result-container"@
}

/// The message given for a page without a translation.
pub open spec fn missing_translation_message() -> Seq<char> {
    "unexcepted error."@
}

/// The address of the page that translates `text` from `from` to `to`.
pub open spec fn request_url_text(to: Seq<char>, from: Seq<char>, text: Seq<char>) -> Seq<char> {
    "https://translate.google.com/m?tl="@ + to + "&sl="@ + from + "&q="@ + text
}

/// What a fetched page (or the fetch error) gives: the translation the page
/// holds, or an error message.
pub open spec fn translation_of(page: Result<Seq<char>, Seq<char>>) -> Result<Seq<char>, Seq<char>> {
    match page {
        Ok(body) => match html_class_text(body, result_class()) {
            Some(t) => Ok(t),
            None => Err(missing_translation_message()),
        },
        Err(e) => Err(e),
    }
}

/// A fetched page that `tl` can parse, or a fetch error.
pub open spec fn page_is_readable(page: Result<String, String>) -> bool {
    page matches Ok(body) ==> tl_parse_returns(body@) || !body@.contains('<')
}

/// A fetched page that is known, before `tl` runs, to be one it can parse:
/// a fetch error, or a page without `<`.
pub open spec fn page_is_known_readable(page: Result<String, String>) -> bool {
    page matches Ok(body) ==> !body@.contains('<')
}

/// Whether `text` holds a `<`.
fn has_tag_start(text: &str) -> (r: bool)
    ensures
        r == text@.contains('<'),
{
    let chars = chars_of(text);
    let mut i: usize = 0;
    while i < chars.len()
        invariant
            chars@ == text@,
            i <= chars.len(),
            forall|j: int| 0 <= j < i ==> chars@[j] != '<',
        decreases chars.len() - i,
    {
        if chars[i] == '<' {
            assert(text@[i as int] == '<');
            return true;
        }
        i = i + 1;
    }
    false
}

/// The view of a text result.
pub open spec fn result_text(r: Result<String, String>) -> Result<Seq<char>, Seq<char>> {
    match r {
        Ok(t) => Ok(t@),
        Err(e) => Err(e@),
    }
}

/// A translator between two languages, named by their codes.
#[derive(Clone, Copy)]
pub struct Translator {
    pub to: &'static str,
    pub from: &'static str,
}

impl Translator {
    /// The address of the page that translates `text`.
    pub fn request_url(&self, text: &str) -> (r: String)
        ensures
            r@ == request_url_text(self.to@, self.from@, text@),
    {
        proof {
            reveal_strlit("https://translate.google.com/m?tl=");
            reveal_strlit("&sl=");
            reveal_strlit("&q=");
        }
        let mut r = "https://translate.google.com/m?tl=".to_owned();
        r.append(self.to);
        r.append("&sl=");
        r.append(self.from);
        r.append("&q=");
        r.append(text);
        r
    }

    /// The translation held by `page`, the result of fetching
    /// `self.request_url(text)`: the text of the page's result element, or
    /// an error message when the fetch failed or the page has no such element.
    pub fn translate(&self, page: Result<String, String>) -> (r: Result<String, String>)
        requires
            page_is_readable(page),
        ensures
            result_text(r) == translation_of(result_text(page)),
    {
        parse_result(page)
    }

    /// The translation held by `page`, when the page is known to be one that
    /// `tl` parses (a fetch error, or a page without `<`); `None` otherwise.
    /// `tl` recurses once per nested tag, so a page with tags can exhaust the
    /// stack at a depth that depends on the machine, and one ending in `<`
    /// keeps it busy for ever: no test short of running it tells such pages apart.
    pub fn try_translate(&self, page: Result<String, String>) -> (r: Option<Result<String, String>>)
        ensures
            r is Some <==> page_is_known_readable(page),
            r matches Some(t) ==> result_text(t) == translation_of(result_text(page)),
    {
        let known = match &page {
            Ok(body) => !has_tag_start(body.as_str()),
            Err(_) => true,
        };
        if known {
            Some(self.translate(page))
        } else {
            None
        }
    }
}

/// The translation address carries the whole text: it is the fixed address,
/// the target and source language codes, and then exactly the text, spaces
/// and all; so adding text to the end of the request adds it to the end of
/// the address.
pub proof fn lemma_request_url_carries_text(
    to: Seq<char>,
    from: Seq<char>,
    text: Seq<char>,
    more: Seq<char>,
)
    ensures
        ({
            let head = "https://translate.google.com/m?tl="@ + to + "&sl="@ + from + "&q="@;
            let url = request_url_text(to, from, text);
            &&& url.len() == head.len() + text.len()
            &&& url.take(head.len() as int) == head
            &&& url.skip(head.len() as int) == text
        }),
        request_url_text(to, from, text + more) == request_url_text(to, from, text) + more,
{
    let head = "https://translate.google.com/m?tl="@ + to + "&sl="@ + from + "&q="@;
    let url = request_url_text(to, from, text);
    assert(url =~= head + text);
    assert(url.take(head.len() as int) =~= head);
    assert(url.skip(head.len() as int) =~= text);
    assert(request_url_text(to, from, text + more) =~= request_url_text(to, from, text) + more);
}

/// Translating is repeatable: pages with the same text (or the same fetch
/// error) give the same translation, whichever translator fetched them.
pub proof fn lemma_same_page_same_translation(
    first: Result<String, String>,
    second: Result<String, String>,
)
    requires
        result_text(first) == result_text(second),
    ensures
        translation_of(result_text(first)) == translation_of(result_text(second)),
{
}

/// The translation held by a fetched page, or the fetch error.
pub fn parse_result(result: Result<String, String>) -> (r: Result<String, String>)
    requires
        page_is_readable(result),
    ensures
        result_text(r) == translation_of(result_text(result)),
{
    match result {
        Ok(body) => {
            proof {
                reveal_strlit("result-container");
            }
            match first_text_of_class(body.as_str(), "result-container") {
                Some(t) => Ok(t),
                None => {
                    proof {
                        reveal_strlit("unexcepted error.");
                    }
                    Err("unexcepted error.".to_owned())
                },
            }
        },
        Err(err) => Err(err),
    }
}

} // verus!
