//! Text cleanup for chat commands: markup purification, command splitting
//! and URL normalization.

use vstd::prelude::*;
use crate::strutil::{chars_to_string, str_to_chars};
use crate::text::{
    remove_all, remove_all_spec, split_ws, split_ws_spec, strip_pre_tags, strip_pre_tags_spec,
    trim_chars, trim_spec,
};
use crate::urlinfo::{parse_url_parts, url_is_valid, url_normalized_of};

verus! {

/// The purified form of chat text: trimmed, with markup characters, the
/// known markup tags and any `<pre ...>` tag removed, in that order.
pub open spec fn purify_spec(s: Seq<char>) -> Seq<char> {
    let t = trim_spec(s);
    let t = remove_all_spec(t, "*"@);
    let t = remove_all_spec(t, "`"@);
    let t = remove_all_spec(t, "~"@);
    let t = remove_all_spec(t, "<b>"@);
    let t = remove_all_spec(t, "</b>"@);
    let t = remove_all_spec(t, "<strong>"@);
    let t = remove_all_spec(t, "</strong>"@);
    let t = remove_all_spec(t, "<i>"@);
    let t = remove_all_spec(t, "</i>"@);
    let t = remove_all_spec(t, "<em>"@);
    let t = remove_all_spec(t, "</em>"@);
    let t = remove_all_spec(t, "<code>"@);
    let t = remove_all_spec(t, "</code>"@);
    let t = remove_all_spec(t, "<s>"@);
    let t = remove_all_spec(t, "</s>"@);
    let t = remove_all_spec(t, "<strike>"@);
    let t = remove_all_spec(t, "</strike>"@);
    let t = remove_all_spec(t, "<del>"@);
    let t = remove_all_spec(t, "</del>"@);
    let t = remove_all_spec(t, "<u>"@);
    let t = remove_all_spec(t, "</u>"@);
    let t = remove_all_spec(t, "</pre>"@);
    strip_pre_tags_spec(t)
}

/// The purified characters of `s`.
pub fn purify_chars(s: &str) -> (r: Vec<char>)
    ensures
        r@ == purify_spec(s@),
{
    proof {
        reveal_strlit("*");
        reveal_strlit("`");
        reveal_strlit("~");
        reveal_strlit("<b>");
        reveal_strlit("</b>");
        reveal_strlit("<strong>");
        reveal_strlit("</strong>");
        reveal_strlit("<i>");
        reveal_strlit("</i>");
        reveal_strlit("<em>");
        reveal_strlit("</em>");
        reveal_strlit("<code>");
        reveal_strlit("</code>");
        reveal_strlit("<s>");
        reveal_strlit("</s>");
        reveal_strlit("<strike>");
        reveal_strlit("</strike>");
        reveal_strlit("<del>");
        reveal_strlit("</del>");
        reveal_strlit("<u>");
        reveal_strlit("</u>");
        reveal_strlit("</pre>");
    }
    let raw = str_to_chars(s);
    let mut cur = trim_chars(&raw);
    cur = remove_all(&cur, &str_to_chars("*"));
    cur = remove_all(&cur, &str_to_chars("`"));
    cur = remove_all(&cur, &str_to_chars("~"));
    cur = remove_all(&cur, &str_to_chars("<b>"));
    cur = remove_all(&cur, &str_to_chars("</b>"));
    cur = remove_all(&cur, &str_to_chars("<strong>"));
    cur = remove_all(&cur, &str_to_chars("</strong>"));
    cur = remove_all(&cur, &str_to_chars("<i>"));
    cur = remove_all(&cur, &str_to_chars("</i>"));
    cur = remove_all(&cur, &str_to_chars("<em>"));
    cur = remove_all(&cur, &str_to_chars("</em>"));
    cur = remove_all(&cur, &str_to_chars("<code>"));
    cur = remove_all(&cur, &str_to_chars("</code>"));
    cur = remove_all(&cur, &str_to_chars("<s>"));
    cur = remove_all(&cur, &str_to_chars("</s>"));
    cur = remove_all(&cur, &str_to_chars("<strike>"));
    cur = remove_all(&cur, &str_to_chars("</strike>"));
    cur = remove_all(&cur, &str_to_chars("<del>"));
    cur = remove_all(&cur, &str_to_chars("</del>"));
    cur = remove_all(&cur, &str_to_chars("<u>"));
    cur = remove_all(&cur, &str_to_chars("</u>"));
    cur = remove_all(&cur, &str_to_chars("</pre>"));
    strip_pre_tags(&cur)
}

/// Cleanup that chat text goes through before the library reads it.
pub trait TextExt {
    spec fn text(&self) -> Seq<char>;

    /// The purified form of the text.
    fn purify(&self) -> (r: String)
        ensures
            r@ == purify_spec(self.text()),
    ;

    /// The normalized serialization of the text read as a URL.
    fn url_encode(&self) -> (r: String)
        requires
            url_is_valid(self.text()),
        ensures
            r@ == url_normalized_of(self.text()),
    ;
}

impl TextExt for String {
    open spec fn text(&self) -> Seq<char> {
        self@
    }

    fn purify(&self) -> (r: String) {
        let chars = purify_chars(self.as_str());
        chars_to_string(&chars)
    }

    fn url_encode(&self) -> (r: String) {
        match parse_url_parts(self.as_str()) {
            Some(parts) => parts.normalized,
            None => vstd::pervasive::unreached(),
        }
    }
}

/// Normalizes `s` as a URL when it is one; `None` when it is not.
pub fn try_url_encode(s: &str) -> (r: Option<String>)
    ensures
        r is Some <==> url_is_valid(s@),
        match r {
            Some(t) => t@ == url_normalized_of(s@),
            None => true,
        },
{
    match parse_url_parts(s) {
        Some(_) => {
            let owned = s.to_owned();
            Some(owned.url_encode())
        },
        None => None,
    }
}

/// The words of the purified command text, in order.
pub fn cmd_parser(cmd: &str) -> (r: Vec<String>)
    ensures
        r@.map_values(|s: String| s@) == split_ws_spec(purify_spec(cmd@)),
{
    let purified = purify_chars(cmd);
    let words = split_ws(&purified);
    let mut r: Vec<String> = Vec::new();
    let mut i: usize = 0;
    while i < words.len()
        invariant
            i <= words@.len(),
            r@.map_values(|s: String| s@) == words@.map_values(|w: Vec<char>| w@).take(i as int),
        decreases words@.len() - i,
    {
        let s = chars_to_string(&words[i]);
        r.push(s);
        proof {
            assert(r@.map_values(|s: String| s@) =~= r@.drop_last().map_values(
                |s: String| s@,
            ).push(r@.last()@));
            assert(words@.map_values(|w: Vec<char>| w@).take(i + 1 as int) =~= words@.map_values(
                |w: Vec<char>| w@,
            ).take(i as int).push(words@[i as int]@));
        }
        i = i + 1;
    }
    proof {
        assert(words@.map_values(|w: Vec<char>| w@).take(words@.len() as int) =~= words@
            .map_values(|w: Vec<char>| w@));
    }
    r
}

} // verus!
