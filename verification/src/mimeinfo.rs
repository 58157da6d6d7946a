//! The mime-type extension table of the `mime_guess` crate, behind one
//! trusted wrapper, and the verified cleanup applied to a content-type
//! header before the lookup.

use vstd::prelude::*;
use crate::text;

verus! {

/// What `mime_guess::get_mime_extensions_str` returns for the string, with
/// an unknown type giving the empty sequence; a pure table lookup.
pub uninterp spec fn mime_exts_of(ct: Seq<char>) -> Seq<Seq<char>>;

/// Relies on `mime_guess::get_mime_extensions_str`: a lookup in a fixed
/// table, a function of the argument alone.
#[verifier::external_body]
fn mime_extensions(ct: &str) -> (r: Vec<String>)
    ensures
        r@.map_values(|s: String| s@) == mime_exts_of(ct@),
{
    match mime_guess::get_mime_extensions_str(ct) {
        Some(exts) => exts.iter().map(|s| (*s).to_string()).collect(),
        None => Vec::new(),
    }
}

/// The essence of a content-type header: the first run of characters that
/// holds no `;`, trimmed; the trimmed header itself when every character
/// is `;` or none is left.
pub open spec fn clean_content_type(s: Seq<char>) -> Seq<char> {
    let t = text::trim_spec(s);
    clean_ct_inner(t)
}

pub open spec fn clean_ct_inner(t: Seq<char>) -> Seq<char> {
    let a = find_not_semi(t);
    if a < 0 {
        t
    } else {
        let rest = t.skip(a);
        let b = text::find_ch(rest, ';');
        if b < 0 {
            text::trim_spec(rest)
        } else {
            text::trim_spec(rest.take(b))
        }
    }
}

/// Index of the first character that is not `;`, or -1.
pub open spec fn find_not_semi(s: Seq<char>) -> int
    decreases s.len(),
{
    if s.len() == 0 {
        -1
    } else if s[0] != ';' {
        0
    } else {
        let r = find_not_semi(s.skip(1));
        if r < 0 {
            -1
        } else {
            1 + r
        }
    }
}

fn find_not_semi_at(v: &Vec<char>) -> (r: Option<usize>)
    ensures
        match r {
            Some(i) => i == find_not_semi(v@),
            None => find_not_semi(v@) == -1,
        },
{
    proof {
        assert(v@.skip(0) =~= v@);
    }
    let mut i: usize = 0;
    while i < v.len()
        invariant
            i <= v@.len(),
            find_not_semi(v@) == if find_not_semi(v@.skip(i as int)) < 0 {
                -1
            } else {
                i + find_not_semi(v@.skip(i as int))
            },
        decreases v@.len() - i,
    {
        proof {
            assert(v@.skip(i as int)[0] == v@[i as int]);
            assert(v@.skip(i as int).skip(1) =~= v@.skip(i + 1));
        }
        if v[i] != ';' {
            return Some(i);
        }
        i = i + 1;
    }
    None
}

/// The extensions that the content-type header implies, after the header
/// is trimmed and cut at its first `;`.
pub open spec fn guessed_exts(ct: Seq<char>) -> Seq<Seq<char>> {
    mime_exts_of(clean_content_type(ct))
}

pub fn guess_exts(content_type: &str) -> (r: Vec<String>)
    ensures
        r@.map_values(|s: String| s@) == guessed_exts(content_type@),
{
    let raw = crate::strutil::str_to_chars(content_type);
    let trimmed = text::trim_chars(&raw);
    let cleaned: Vec<char> = match find_not_semi_at(&trimmed) {
        None => trimmed,
        Some(a) => {
            proof {
                crate::mimeinfo::lemma_find_not_semi_bound(trimmed@);
            }
            let mut rest: Vec<char> = Vec::new();
            let mut i: usize = a;
            while i < trimmed.len()
                invariant
                    a <= i <= trimmed@.len(),
                    rest@ == trimmed@.subrange(a as int, i as int),
                decreases trimmed@.len() - i,
            {
                rest.push(trimmed[i]);
                proof {
                    assert(trimmed@.subrange(a as int, i + 1 as int) =~= trimmed@.subrange(
                        a as int,
                        i as int,
                    ).push(trimmed@[i as int]));
                }
                i = i + 1;
            }
            proof {
                assert(rest@ =~= trimmed@.skip(a as int));
            }
            let piece: Vec<char> = match text::find_char_at(&rest, ';') {
                None => rest,
                Some(b) => {
                    proof {
                        text::lemma_find_ch(rest@, ';');
                    }
                    let mut p: Vec<char> = Vec::new();
                    let mut j: usize = 0;
                    while j < b
                        invariant
                            b <= rest@.len(),
                            j <= b,
                            p@ == rest@.subrange(0, j as int),
                        decreases b - j,
                    {
                        p.push(rest[j]);
                        proof {
                            assert(rest@.subrange(0, j + 1 as int) =~= rest@.subrange(
                                0,
                                j as int,
                            ).push(rest@[j as int]));
                        }
                        j = j + 1;
                    }
                    proof {
                        assert(p@ =~= rest@.take(b as int));
                    }
                    p
                },
            };
            text::trim_chars(&piece)
        },
    };
    let cleaned_str = crate::strutil::chars_to_string(&cleaned);
    proof {
        assert(cleaned_str@ == clean_content_type(content_type@));
    }
    mime_extensions(cleaned_str.as_str())
}

pub proof fn lemma_find_not_semi_bound(s: Seq<char>)
    ensures
        find_not_semi(s) < s.len(),
        find_not_semi(s) >= 0 ==> s[find_not_semi(s)] != ';',
    decreases s.len(),
{
    if s.len() > 0 && s[0] == ';' {
        lemma_find_not_semi_bound(s.skip(1));
    }
}

} // verus!
