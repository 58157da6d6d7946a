//! Filename resolution: derives a sanitized destination filename from a
//! disposition header, a source URL or the source system's media metadata,
//! with a timestamp fallback.

use vstd::prelude::*;
use crate::num::dec_str;
use crate::text::{
    contains_sub, find_ch, has_sub, lemma_find_ch, trim_char_spec, trim_char, trim_chars,
    trim_prefix, trim_prefix_spec, trim_spec, match_at, has_match_at,
};

verus! {

/// Index of the last occurrence of `c` in `s`, or -1.
pub open spec fn find_last_ch(s: Seq<char>, c: char) -> int
    decreases s.len(),
{
    if s.len() == 0 {
        -1
    } else if s.last() == c {
        s.len() - 1
    } else {
        find_last_ch(s.drop_last(), c)
    }
}

pub proof fn lemma_find_last_ch(s: Seq<char>, c: char)
    ensures
        find_last_ch(s, c) == -1 ==> forall|i: int| 0 <= i < s.len() ==> s[i] != c,
        find_last_ch(s, c) >= 0 ==> find_last_ch(s, c) < s.len() && s[find_last_ch(s, c)] == c
            && forall|i: int| find_last_ch(s, c) < i < s.len() ==> s[i] != c,
    decreases s.len(),
{
    if s.len() > 0 && s.last() != c {
        lemma_find_last_ch(s.drop_last(), c);
        assert(forall|i: int| 0 <= i < s.len() - 1 ==> s[i] == s.drop_last()[i]);
    }
}

fn find_last_char_at(v: &Vec<char>, c: char) -> (r: Option<usize>)
    ensures
        match r {
            Some(i) => i == find_last_ch(v@, c),
            None => find_last_ch(v@, c) == -1,
        },
{
    proof {
        assert(v@.take(v@.len() as int) =~= v@);
    }
    let mut i: usize = v.len();
    while i > 0
        invariant
            i <= v@.len(),
            find_last_ch(v@, c) == find_last_ch(v@.take(i as int), c),
        decreases i,
    {
        proof {
            let t = v@.take(i as int);
            assert(t.last() == v@[i - 1]);
            assert(t.drop_last() =~= v@.take(i - 1));
        }
        if v[i - 1] == c {
            return Some(i - 1);
        }
        i = i - 1;
    }
    proof {
        assert(v@.take(0).len() == 0);
    }
    None
}

/// The characters after the last `.` of `s`; empty when `s` has no `.`.
pub open spec fn after_last_dot(s: Seq<char>) -> Seq<char> {
    let j = find_last_ch(s, '.');
    if j < 0 {
        Seq::empty()
    } else {
        s.skip(j + 1)
    }
}

/// Whether `s` holds a `.` at all.
pub open spec fn has_dot(s: Seq<char>) -> bool {
    find_last_ch(s, '.') >= 0
}

pub open spec fn ascii_lower_char(c: char) -> char {
    if 65 <= c as u32 <= 90 {
        ((c as u8) + 32) as char
    } else {
        c
    }
}

pub open spec fn ascii_lower(s: Seq<char>) -> Seq<char> {
    s.map_values(|c: char| ascii_lower_char(c))
}

fn lower_char(c: char) -> (r: char)
    ensures
        r == ascii_lower_char(c),
{
    let u = c as u32;
    if 65 <= u && u <= 90 {
        ((c as u8) + 32) as char
    } else {
        c
    }
}

/// The extension of a filename: the characters after the last `.`, with
/// ASCII letters lowered; empty when there is no `.`.
pub open spec fn get_ext_spec(s: Seq<char>) -> Seq<char> {
    ascii_lower(after_last_dot(s))
}

pub fn get_ext(v: &Vec<char>) -> (r: Vec<char>)
    ensures
        r@ == get_ext_spec(v@),
{
    let mut r: Vec<char> = Vec::new();
    match find_last_char_at(v, '.') {
        None => {
            proof {
                assert(Seq::<char>::empty().map_values(|c: char| ascii_lower_char(c))
                    =~= Seq::<char>::empty());
            }
            r
        },
        Some(j) => {
            let n = v.len();
            proof {
                lemma_find_last_ch(v@, '.');
                assert(j < n);
            }
            let mut i: usize = j + 1;
            while i < v.len()
                invariant
                    j + 1 <= i <= v@.len(),
                    j == find_last_ch(v@, '.'),
                    j < v@.len(),
                    r@ == v@.subrange(j + 1, i as int).map_values(|c: char| ascii_lower_char(c)),
                decreases v@.len() - i,
            {
                r.push(lower_char(v[i]));
                proof {
                    assert(v@.subrange(j + 1, i + 1 as int) =~= v@.subrange(j + 1, i as int).push(
                        v@[i as int],
                    ));
                    assert(v@.subrange(j + 1, i + 1 as int).map_values(
                        |c: char| ascii_lower_char(c),
                    ) =~= v@.subrange(j + 1, i as int).map_values(
                        |c: char| ascii_lower_char(c),
                    ).push(ascii_lower_char(v@[i as int])));
                }
                i = i + 1;
            }
            proof {
                assert(v@.subrange(j + 1, v@.len() as int) =~= v@.skip(j + 1));
            }
            r
        },
    }
}

/// Literal names a filename may never be.
pub open spec fn invalid_names() -> Seq<Seq<char>> {
    seq![seq!['.'], seq!['.', '.']]
}

/// Path fragments a filename may never contain: separators and the
/// parent-directory token.
pub open spec fn invalid_components() -> Seq<Seq<char>> {
    seq![seq!['/'], seq!['\\'], seq!['.', '.']]
}

/// A usable filename: non-empty, not a reserved literal name, free of
/// path separators and parent-directory tokens.
pub open spec fn valid_filename(s: Seq<char>) -> bool {
    s.len() > 0 && !invalid_names().contains(s) && forall|i: int|
        0 <= i < invalid_components().len() ==> !contains_sub(s, #[trigger] invalid_components()[i])
}

pub fn validate_filename(v: &Vec<char>) -> (r: bool)
    ensures
        r == valid_filename(v@),
{
    if v.len() == 0 {
        return false;
    }
    if v.len() == 1 && v[0] == '.' {
        proof {
            assert(v@ =~= invalid_names()[0]);
        }
        return false;
    }
    if v.len() == 2 && v[0] == '.' && v[1] == '.' {
        proof {
            assert(v@ =~= invalid_names()[1]);
        }
        return false;
    }
    let slash: Vec<char> = vec!['/'];
    let backslash: Vec<char> = vec!['\\'];
    let dotdot: Vec<char> = vec!['.', '.'];
    proof {
        assert(slash@ =~= invalid_components()[0]);
        assert(backslash@ =~= invalid_components()[1]);
        assert(dotdot@ =~= invalid_components()[2]);
    }
    if has_sub(v, &slash) {
        return false;
    }
    if has_sub(v, &backslash) {
        return false;
    }
    if has_sub(v, &dotdot) {
        return false;
    }
    proof {
        assert(forall|i: int| 0 <= i < invalid_names().len() ==> invalid_names()[i].len() <= 2);
        if invalid_names().contains(v@) {
            let i = choose|i: int| 0 <= i < invalid_names().len() && invalid_names()[i] == v@;
            if i == 0 {
                assert(v@ =~= invalid_names()[0]);
            } else {
                assert(v@ =~= invalid_names()[1]);
            }
        }
        assert(forall|i: int| 0 <= i < invalid_components().len()
            ==> !contains_sub(v@, #[trigger] invalid_components()[i])) by {
            assert(invalid_components()[0] == slash@);
            assert(invalid_components()[1] == backslash@);
            assert(invalid_components()[2] == dotdot@);
            assert forall|i: int| 0 <= i < invalid_components().len() implies !contains_sub(
                v@,
                #[trigger] invalid_components()[i],
            ) by {
                if i == 0 {
                } else if i == 1 {
                } else {
                    assert(i == 2);
                }
            }
        }
    }
    true
}

/// The repair step applied to a resolved name: a valid name is trimmed and
/// loses any repeated temporary-file marker prefix; an invalid one is
/// replaced by the timestamp, keeping its extension when it has one.
pub open spec fn preprocess_name(s: Seq<char>, now: nat) -> Seq<char> {
    if valid_filename(s) {
        trim_prefix_spec(trim_spec(s), seq!['~', '$'])
    } else {
        if has_dot(s) {
            dec_str(now) + seq!['.'] + after_last_dot(s)
        } else {
            dec_str(now)
        }
    }
}

pub fn preprocess_url_file_name(v: &Vec<char>, now: u64) -> (r: Vec<char>)
    ensures
        r@ == preprocess_name(v@, now as nat),
{
    if validate_filename(v) {
        let trimmed = trim_chars(v);
        let marker: Vec<char> = vec!['~', '$'];
        proof {
            assert(marker@ =~= seq!['~', '$']);
        }
        trim_prefix(&trimmed, &marker)
    } else {
        let mut r = crate::num::u64_dec_chars(now);
        match find_last_char_at(v, '.') {
            Some(j) => {
                let n = v.len();
                proof {
                    lemma_find_last_ch(v@, '.');
                    assert(j < n);
                }
                r.push('.');
                let ghost base = r@;
                let mut i: usize = j + 1;
                while i < v.len()
                    invariant
                        j + 1 <= i <= v@.len(),
                        j < v@.len(),
                        r@ == base + v@.subrange(j + 1, i as int),
                    decreases v@.len() - i,
                {
                    r.push(v[i]);
                    proof {
                        assert(base + v@.subrange(j + 1, i + 1 as int) =~= (base + v@.subrange(
                            j + 1,
                            i as int,
                        )).push(v@[i as int]));
                    }
                    i = i + 1;
                }
                proof {
                    assert(v@.subrange(j + 1, v@.len() as int) =~= v@.skip(j + 1));
                    assert(base =~= dec_str(now as nat) + seq!['.']);
                }
                r
            },
            None => {
                r
            },
        }
    }
}

proof fn lemma_trim_start_suffix(s: Seq<char>)
    ensures
        exists|k: int|
            0 <= k <= s.len() && crate::text::trim_start_spec(s) == #[trigger] s.skip(k),
    decreases s.len(),
{
    if s.len() > 0 && crate::text::is_space_char(s[0]) {
        lemma_trim_start_suffix(s.skip(1));
        let k = choose|k: int|
            0 <= k <= s.skip(1).len() && crate::text::trim_start_spec(s.skip(1)) == #[trigger] s.skip(
                1,
            ).skip(k);
        assert(s.skip(1).skip(k) =~= s.skip(1 + k));
    } else {
        assert(s.skip(0) =~= s);
    }
}

proof fn lemma_trim_end_prefix(s: Seq<char>)
    ensures
        exists|b: int|
            0 <= b <= s.len() && crate::text::trim_end_spec(s) == #[trigger] s.take(b),
    decreases s.len(),
{
    if s.len() > 0 && crate::text::is_space_char(s[s.len() - 1]) {
        lemma_trim_end_prefix(s.take(s.len() - 1));
        let b = choose|b: int|
            0 <= b <= s.take(s.len() - 1).len() && crate::text::trim_end_spec(
                s.take(s.len() - 1),
            ) == #[trigger] s.take(s.len() - 1).take(b);
        assert(s.take(s.len() - 1).take(b) =~= s.take(b));
    } else {
        assert(s.take(s.len() as int) =~= s);
    }
}

proof fn lemma_trim_prefix_suffix(s: Seq<char>, p: Seq<char>)
    ensures
        exists|m: int| 0 <= m <= s.len() && trim_prefix_spec(s, p) == #[trigger] s.skip(m),
    decreases s.len(),
{
    if p.len() > 0 && match_at(s, p, 0) {
        lemma_trim_prefix_suffix(s.skip(p.len() as int), p);
        let m = choose|m: int|
            0 <= m <= s.skip(p.len() as int).len() && trim_prefix_spec(
                s.skip(p.len() as int),
                p,
            ) == #[trigger] s.skip(p.len() as int).skip(m);
        assert(s.skip(p.len() as int).skip(m) =~= s.skip(p.len() + m));
    } else {
        assert(s.skip(0) =~= s);
    }
}

/// A substring of a contiguous piece of `s` is a substring of `s`.
proof fn lemma_contains_in_super(s: Seq<char>, a: int, b: int, p: Seq<char>)
    requires
        0 <= a <= b <= s.len(),
        contains_sub(s.subrange(a, b), p),
    ensures
        contains_sub(s, p),
{
    let i = choose|i: int| match_at(s.subrange(a, b), p, i);
    assert(s.subrange(a + i, a + i + p.len()) =~= s.subrange(a, b).subrange(i, i + p.len()));
    assert(match_at(s, p, a + i));
}

proof fn lemma_dec_digits_are_digits(n: nat)
    ensures
        forall|i: int|
            0 <= i < crate::num::dec_digits(n).len() ==> crate::num::is_digit_char(
                #[trigger] crate::num::dec_digits(n)[i],
            ),
    decreases n,
{
    if n > 0 {
        lemma_dec_digits_are_digits(n / 10);
        assert(crate::num::is_digit_char(crate::num::digit_char_of((n % 10) as int)));
        assert(forall|i: int|
            0 <= i < crate::num::dec_digits(n).len() - 1 ==> crate::num::dec_digits(n)[i]
                == crate::num::dec_digits(n / 10)[i]);
        assert(crate::num::dec_digits(n).last() == crate::num::digit_char_of((n % 10) as int));
    }
}

/// A decimal timestamp is always a usable filename: non-empty, not a
/// reserved name, free of separators and parent-directory tokens.
proof fn lemma_dec_str_valid(n: nat)
    ensures
        crate::num::dec_str(n).len() > 0,
        forall|i: int|
            0 <= i < crate::num::dec_str(n).len() ==> crate::num::is_digit_char(
                #[trigger] crate::num::dec_str(n)[i],
            ),
        valid_filename(crate::num::dec_str(n)),
{
    let d = crate::num::dec_str(n);
    lemma_dec_digits_are_digits(n);
    if n == 0 {
    }
    assert(d.len() > 0);
    if invalid_names().contains(d) {
        let i = choose|i: int| 0 <= i < invalid_names().len() && invalid_names()[i] == d;
        assert(i == 0 || i == 1);
        assert(d[0] == '.');
        assert(crate::num::is_digit_char(d[0]));
        assert(false);
    }
    assert forall|i: int| 0 <= i < invalid_components().len() implies !contains_sub(
        d,
        #[trigger] invalid_components()[i],
    ) by {
        if contains_sub(d, invalid_components()[i]) {
            let j = choose|j: int| match_at(d, invalid_components()[i], j);
            let c0 = invalid_components()[i][0];
            assert(d.subrange(j, j + invalid_components()[i].len())[0] == d[j]);
            assert(d[j] == c0);
            assert(crate::num::is_digit_char(d[j]));
            assert(c0 == '/' || c0 == '\\' || c0 == '.');
            assert(false);
        }
    }
}

proof fn lemma_after_last_dot_no_dot(s: Seq<char>)
    ensures
        forall|i: int|
            0 <= i < after_last_dot(s).len() ==> #[trigger] after_last_dot(s)[i] != '.',
{
    lemma_find_last_ch(s, '.');
    let j = find_last_ch(s, '.');
    if j >= 0 {
        assert(forall|i: int|
            0 <= i < after_last_dot(s).len() ==> after_last_dot(s)[i] == s[j + 1 + i]);
    }
}

/// The repair step yields a non-empty, sanitized filename. The inputs
/// left out are precisely those the repair cannot save: a valid name that
/// trims away to nothing or to a reserved literal, and an invalid name
/// whose own extension carries a path separator.
/// The valid-branch repair — trim, then strip the temporary marker —
/// keeps a contiguous piece of the name, so it cannot introduce a
/// separator; emptiness and reserved literals are the hypotheses.
proof fn lemma_trimmed_name_sanitized(s: Seq<char>)
    requires
        valid_filename(s),
        trim_prefix_spec(trim_spec(s), seq!['~', '$']).len() > 0,
        !invalid_names().contains(trim_prefix_spec(trim_spec(s), seq!['~', '$'])),
    ensures
        valid_filename(trim_prefix_spec(trim_spec(s), seq!['~', '$'])),
{
    let r = trim_prefix_spec(trim_spec(s), seq!['~', '$']);
    lemma_trim_start_suffix(s);
    let k = choose|k: int|
        0 <= k <= s.len() && crate::text::trim_start_spec(s) == #[trigger] s.skip(k);
    let t1 = s.skip(k);
    lemma_trim_end_prefix(t1);
    let b = choose|b: int|
        0 <= b <= t1.len() && crate::text::trim_end_spec(t1) == #[trigger] t1.take(b);
    let t2 = t1.take(b);
    lemma_trim_prefix_suffix(t2, seq!['~', '$']);
    let m = choose|m: int|
        0 <= m <= t2.len() && trim_prefix_spec(t2, seq!['~', '$']) == #[trigger] t2.skip(m);
    assert(r == t2.skip(m));
    assert(t2 =~= s.subrange(k, k + b));
    assert(t2.skip(m) =~= s.subrange(k + m, k + b));
    assert forall|i: int| 0 <= i < invalid_components().len() implies !contains_sub(
        r,
        #[trigger] invalid_components()[i],
    ) by {
        if contains_sub(r, invalid_components()[i]) {
            lemma_contains_in_super(s, k + m, k + b, invalid_components()[i]);
        }
    }
}

pub proof fn lemma_preprocess_name_sanitized(s: Seq<char>, now: nat)
    requires
        valid_filename(s) ==> trim_prefix_spec(trim_spec(s), seq!['~', '$']).len() > 0,
        valid_filename(s) ==> !invalid_names().contains(
            trim_prefix_spec(trim_spec(s), seq!['~', '$']),
        ),
        (!valid_filename(s) && has_dot(s)) ==> !contains_sub(after_last_dot(s), seq!['/']),
        (!valid_filename(s) && has_dot(s)) ==> !contains_sub(after_last_dot(s), seq!['\\']),
    ensures
        preprocess_name(s, now).len() > 0,
        valid_filename(preprocess_name(s, now)),
{
    let r = preprocess_name(s, now);
    if valid_filename(s) {
        lemma_trimmed_name_sanitized(s);
    } else {
        lemma_dec_str_valid(now);
        let ts = crate::num::dec_str(now);
        if has_dot(s) {
            let ext = after_last_dot(s);
            lemma_after_last_dot_no_dot(s);
            assert(r == ts + seq!['.'] + ext);
            assert(r.len() > 0);
            if invalid_names().contains(r) {
                let i = choose|i: int| 0 <= i < invalid_names().len() && invalid_names()[i] == r;
                assert(i == 0 || i == 1);
                assert(r[0] == '.');
                assert(r[0] == ts[0]);
                assert(crate::num::is_digit_char(ts[0]));
                assert(false);
            }
            assert forall|i: int| 0 <= i < invalid_components().len() implies !contains_sub(
                r,
                #[trigger] invalid_components()[i],
            ) by {
                let p = invalid_components()[i];
                if contains_sub(r, p) {
                    let j = choose|j: int| match_at(r, p, j);
                    assert(r.subrange(j, j + p.len())[0] == r[j]);
                    assert(r[j] == p[0]);
                    if i == 0 || i == 1 {
                        // a separator would have to sit in the timestamp,
                        // the dot, or the extension; none holds one
                        if j < ts.len() {
                            assert(crate::num::is_digit_char(ts[j]));
                            assert(false);
                        } else if j == ts.len() {
                            assert(r[j] == '.');
                            assert(false);
                        } else {
                            assert(r[j] == ext[j - ts.len() - 1]);
                            assert(match_at(ext, p, j - ts.len() - 1)) by {
                                assert(ext.subrange(
                                    j - ts.len() - 1,
                                    j - ts.len() - 1 + p.len(),
                                ) =~= r.subrange(j, j + p.len()));
                            }
                            assert(contains_sub(ext, p));
                            assert(false);
                        }
                    } else {
                        assert(i == 2);
                        assert(p =~= seq!['.', '.']);
                        assert(r.subrange(j, j + p.len())[1] == r[j + 1]);
                        assert(r[j] == '.' && r[j + 1] == '.');
                        // the only dot of the repaired name sits right
                        // after the timestamp
                        if j < ts.len() {
                            assert(crate::num::is_digit_char(ts[j]));
                            assert(false);
                        } else if j == ts.len() {
                            assert(r[j + 1] == ext[0]);
                            assert(false);
                        } else {
                            assert(r[j] == ext[j - ts.len() - 1]);
                            assert(false);
                        }
                    }
                }
            }
        } else {
            assert(r == crate::num::dec_str(now));
        }
    }
}

/// The marker a disposition header names the file after.
pub open spec fn cd_marker() -> Seq<char> {
    seq!['f', 'i', 'l', 'e', 'n', 'a', 'm', 'e', '=']
}

/// The captured name of a disposition header: everything after the first
/// `filename=` that is followed by at least one character, up to the end
/// of the line; `None` when no such occurrence exists.
pub open spec fn cd_capture(s: Seq<char>) -> Option<Seq<char>>
    decreases s.len(),
{
    if s.len() == 0 {
        None
    } else if match_at(s, cd_marker(), 0) && s.len() > 9 && s[9] != '\n' {
        let t = s.skip(9);
        let k = find_ch(t, '\n');
        if k < 0 {
            Some(t)
        } else {
            Some(t.take(k))
        }
    } else {
        cd_capture(s.skip(1))
    }
}

/// The filename a disposition header value yields: the captured name,
/// trimmed and stripped of surrounding quotes.
pub open spec fn cd_name_spec(h: Seq<char>) -> Option<Seq<char>> {
    match cd_capture(h) {
        Some(cap) => Some(trim_char_spec(trim_char_spec(trim_spec(cap), '\''), '"')),
        None => None,
    }
}

/// Extracts the filename from a `Content-Disposition` header value.
pub fn get_filename_from_cd(header: &str) -> (r: Option<String>)
    ensures
        match r {
            Some(name) => cd_name_spec(header@) == Some(name@),
            None => cd_name_spec(header@) is None,
        },
{
    let v = crate::strutil::str_to_chars(header);
    proof {
        assert(v@.skip(0) =~= v@);
    }
    let marker: Vec<char> = vec!['f', 'i', 'l', 'e', 'n', 'a', 'm', 'e', '='];
    proof {
        assert(marker@ =~= cd_marker());
    }
    let n = v.len();
    let mut i: usize = 0;
    let mut cap: Option<Vec<char>> = None;
    while i < n
        invariant_except_break
            cap is None,
            cd_capture(v@) == cd_capture(v@.skip(i as int)),
        invariant
            n == v@.len(),
            i <= n,
            marker@ == cd_marker(),
        ensures
            match cap {
                Some(c) => cd_capture(v@) == Some(c@),
                None => cd_capture(v@) is None,
            },
        decreases n - i,
    {
        let ghost t = v@.skip(i as int);
        let matched = if n - i > 9 {
            if has_match_at(&v, &marker, i) {
                v[i + 9] != '\n'
            } else {
                false
            }
        } else {
            false
        };
        proof {
            if n - i >= 9 {
                assert(t.subrange(0, 9) =~= v@.subrange(i as int, i + 9));
            }
            if n - i > 9 {
                assert(t[9] == v@[i + 9]);
            }
            assert(matched == (match_at(t, cd_marker(), 0) && t.len() > 9 && t[9] != '\n'));
        }
        if matched {
            let mut c: Vec<char> = Vec::new();
            let mut j: usize = i + 9;
            while j < n && v[j] != '\n'
                invariant
                    n == v@.len(),
                    i + 9 <= j <= n,
                    c@ == v@.subrange(i + 9, j as int),
                    forall|k: int| i + 9 <= k < j ==> v@[k] != '\n',
                decreases n - j,
            {
                c.push(v[j]);
                proof {
                    assert(v@.subrange(i + 9, j + 1 as int) =~= v@.subrange(i + 9, j as int).push(
                        v@[j as int],
                    ));
                }
                j = j + 1;
            }
            proof {
                let k = find_ch(t.skip(9), '\n');
                lemma_find_ch(t.skip(9), '\n');
                assert(t.skip(9) =~= v@.skip(i + 9));
                assert(forall|m: int| 0 <= m < j - i - 9 ==> t.skip(9)[m] == v@[i + 9 + m]);
                if j < n {
                    assert(v@[j as int] == '\n');
                    assert(t.skip(9)[j - i - 9] == '\n');
                    assert(k == j - i - 9);
                    assert(t.skip(9).take(k) =~= v@.subrange(i + 9, j as int));
                } else {
                    assert(k == -1);
                    assert(t.skip(9) =~= v@.subrange(i + 9, j as int));
                }
                assert(cd_capture(t) == Some(c@));
            }
            cap = Some(c);
            break ;
        }
        proof {
            assert(t.skip(1) =~= v@.skip(i + 1));
        }
        i = i + 1;
    }
    proof {
        if i >= n && cap is None {
            assert(v@.skip(i as int).len() == 0);
        }
    }
    match cap {
        Some(c) => {
            let t1 = trim_chars(&c);
            let t2 = trim_char(&t1, '\'');
            let t3 = trim_char(&t2, '"');
            Some(crate::strutil::chars_to_string(&t3))
        },
        None => None,
    }
}

/// The query parameter names recognized as carrying a filename.
pub open spec fn file_param_names() -> Seq<Seq<char>> {
    seq![
        seq!['n', 'a', 'm', 'e'],
        seq!['f', 'i', 'l', 'e', 'n', 'a', 'm', 'e'],
        seq!['f', 'i', 'l', 'e', '_', 'n', 'a', 'm', 'e'],
        seq!['t', 'i', 't', 'l', 'e'],
        seq!['f', 'i', 'l', 'e'],
    ]
}

pub open spec fn recognized_param(k: Seq<char>) -> bool {
    file_param_names().contains(k)
}

/// Index of the first query pair whose key is recognized, or -1.
pub open spec fn first_recognized_idx(ps: Seq<(Seq<char>, Seq<char>)>) -> int
    decreases ps.len(),
{
    if ps.len() == 0 {
        -1
    } else if recognized_param(ps[0].0) {
        0
    } else {
        let r = first_recognized_idx(ps.skip(1));
        if r < 0 {
            -1
        } else {
            1 + r
        }
    }
}

/// The value of the last pair carrying `key`; empty when none does.
pub open spec fn last_value_of(ps: Seq<(Seq<char>, Seq<char>)>, key: Seq<char>) -> Seq<char>
    decreases ps.len(),
{
    if ps.len() == 0 {
        Seq::empty()
    } else if ps.last().0 == key {
        ps.last().1
    } else {
        last_value_of(ps.drop_last(), key)
    }
}

proof fn lemma_last_value_at(ps: Seq<(Seq<char>, Seq<char>)>, key: Seq<char>, j: int)
    requires
        0 <= j < ps.len(),
        ps[j].0 == key,
        forall|m: int| j < m < ps.len() ==> ps[m].0 != key,
    ensures
        last_value_of(ps, key) == ps[j].1,
    decreases ps.len(),
{
    if j == ps.len() - 1 {
    } else {
        lemma_last_value_at(ps.drop_last(), key, j);
    }
}

/// The filename candidate a URL yields: the lowered value of the first
/// recognized query parameter (with a repeated key, its last value), else
/// the percent-decoded last path segment.
pub open spec fn url_name_spec(u: Seq<char>) -> Option<Seq<char>> {
    let ps = crate::urlinfo::url_query_pairs_of(u);
    let idx = first_recognized_idx(ps);
    let cand = if idx >= 0 {
        crate::urlinfo::lower_of(last_value_of(ps, ps[idx].0))
    } else {
        crate::urlinfo::percent_decoded_of(crate::urlinfo::url_last_segment_of(u))
    };
    if cand.len() == 0 {
        None
    } else {
        Some(cand)
    }
}

/// Why filename resolution can fail.
#[derive(Clone, Copy, Debug, PartialEq, Eq, Structural)]
pub enum ResolveError {
    /// The response status was not success.
    FileNotFound,
    /// The source URL could not be parsed.
    UrlInvalid,
}

fn is_recognized_param(kv: &Vec<char>) -> (r: bool)
    ensures
        r == recognized_param(kv@),
{
    let n1: Vec<char> = vec!['n', 'a', 'm', 'e'];
    let n2: Vec<char> = vec!['f', 'i', 'l', 'e', 'n', 'a', 'm', 'e'];
    let n3: Vec<char> = vec!['f', 'i', 'l', 'e', '_', 'n', 'a', 'm', 'e'];
    let n4: Vec<char> = vec!['t', 'i', 't', 'l', 'e'];
    let n5: Vec<char> = vec!['f', 'i', 'l', 'e'];
    proof {
        assert(n1@ =~= file_param_names()[0]);
        assert(n2@ =~= file_param_names()[1]);
        assert(n3@ =~= file_param_names()[2]);
        assert(n4@ =~= file_param_names()[3]);
        assert(n5@ =~= file_param_names()[4]);
    }
    let r = crate::text::eq_chars(kv, &n1) || crate::text::eq_chars(kv, &n2)
        || crate::text::eq_chars(kv, &n3) || crate::text::eq_chars(kv, &n4)
        || crate::text::eq_chars(kv, &n5);
    proof {
        if r {
            assert(recognized_param(kv@));
        } else {
            if recognized_param(kv@) {
                let i = choose|i: int|
                    0 <= i < file_param_names().len() && file_param_names()[i] == kv@;
                assert(i == 0 || i == 1 || i == 2 || i == 3 || i == 4);
            }
        }
    }
    r
}

/// Extracts a filename candidate from the source URL's query parameters or
/// last path segment.
pub fn get_filename_from_url(url: &str) -> (r: Result<Option<String>, ResolveError>)
    ensures
        match r {
            Ok(name) => crate::urlinfo::url_is_valid(url@) && (match name {
                Some(s) => url_name_spec(url@) == Some(s@),
                None => url_name_spec(url@) is None,
            }),
            Err(e) => e == ResolveError::UrlInvalid && !crate::urlinfo::url_is_valid(url@),
        },
{
    let parts = match crate::urlinfo::parse_url_parts(url) {
        Some(parts) => parts,
        None => {
            return Err(ResolveError::UrlInvalid);
        },
    };
    let ghost ps = crate::urlinfo::url_query_pairs_of(url@);
    proof {
        assert(parts.pairs_view() == ps);
        assert(ps.skip(0) =~= ps);
    }
    let n = parts.pairs.len();
    let mut idx: Option<usize> = None;
    let mut i: usize = 0;
    while i < n
        invariant_except_break
            idx is None,
            first_recognized_idx(ps) == if first_recognized_idx(ps.skip(i as int)) < 0 {
                -1int
            } else {
                i + first_recognized_idx(ps.skip(i as int))
            },
        invariant
            n == parts.pairs@.len(),
            ps == parts.pairs_view(),
            i <= n,
        ensures
            match idx {
                Some(j) => j == first_recognized_idx(ps) && j < n,
                None => first_recognized_idx(ps) < 0,
            },
        decreases n - i,
    {
        let kv = crate::strutil::str_to_chars(parts.pairs[i].0.as_str());
        proof {
            assert(ps.skip(i as int)[0] == ps[i as int]);
            assert(ps[i as int] == (parts.pairs@[i as int].0@, parts.pairs@[i as int].1@));
            assert(ps.skip(i as int).skip(1) =~= ps.skip(i + 1));
        }
        if is_recognized_param(&kv) {
            idx = Some(i);
            break ;
        }
        i = i + 1;
    }
    proof {
        if i >= n && idx is None {
            assert(ps.skip(n as int).len() == 0);
        }
    }
    let candidate: String = match idx {
        Some(j) => {
            let key = crate::strutil::str_to_chars(parts.pairs[j].0.as_str());
            proof {
                assert(ps[j as int] == (parts.pairs@[j as int].0@, parts.pairs@[j as int].1@));
            }
            // the last pair with this key wins, as a key-to-value map built
            // from the pairs would have it
            let mut m: usize = n;
            let mut val: Option<String> = None;
            while m > j
                invariant_except_break
                    val is None,
                    forall|k: int| m <= k < n ==> ps[k].0 != key@,
                invariant
                    n == parts.pairs@.len(),
                    ps == parts.pairs_view(),
                    j < n,
                    j <= m <= n,
                    key@ == ps[j as int].0,
                ensures
                    match val {
                        Some(s) => last_value_of(ps, ps[j as int].0) == s@,
                        None => false,
                    },
                decreases m,
            {
                let cand_key = crate::strutil::str_to_chars(parts.pairs[m - 1].0.as_str());
                proof {
                    assert(ps[m - 1] == (parts.pairs@[m - 1].0@, parts.pairs@[m - 1].1@));
                }
                if crate::text::eq_chars(&cand_key, &key) {
                    proof {
                        lemma_last_value_at(ps, key@, m - 1);
                    }
                    val = Some(parts.pairs[m - 1].1.clone());
                    break ;
                }
                if m - 1 == j {
                    proof {
                        assert(ps[j as int].0 == key@);
                        assert(false);
                    }
                }
                m = m - 1;
            }
            match val {
                Some(s) => crate::urlinfo::to_lowercase(s.as_str()),
                None => vstd::pervasive::unreached(),
            }
        },
        None => {
            crate::urlinfo::percent_decode_lossy(parts.last_segment.as_str())
        },
    };
    let cand_chars = crate::strutil::str_to_chars(candidate.as_str());
    if cand_chars.len() == 0 {
        Ok(None)
    } else {
        Ok(Some(candidate))
    }
}

/// The generic binary content type, which never contributes an extension.
pub open spec fn octet_stream() -> Seq<char> {
    seq![
        'a', 'p', 'p', 'l', 'i', 'c', 'a', 't', 'i', 'o', 'n', '/', 'o', 'c', 't', 'e', 't',
        '-', 's', 't', 'r', 'e', 'a', 'm',
    ]
}

/// The filename that a resolved candidate and the content type produce,
/// before the repair step: a known, non-generic content type appends its
/// extension to a short name that lacks one, and a name over a hundred
/// characters is replaced by the timestamp, keeping its own extension when
/// it matches the content type and taking the implied one otherwise.
pub open spec fn named_with_type(
    name: Option<Seq<char>>,
    cte: Seq<char>,
    now: nat,
) -> Seq<char> {
    let exts = crate::mimeinfo::guessed_exts(cte);
    match name {
        Some(f) => if exts.len() > 0 && cte != octet_stream() {
            let oe = get_ext_spec(f);
            if f.len() < 100 {
                if !exts.contains(oe) {
                    f + seq!['.'] + exts[0]
                } else {
                    f
                }
            } else {
                if exts.contains(oe) {
                    dec_str(now) + seq!['.'] + oe
                } else {
                    dec_str(now) + seq!['.'] + exts[0]
                }
            }
        } else if f.len() > 100 {
            dec_str(now)
        } else {
            f
        },
        None => if exts.len() > 0 && cte != octet_stream() {
            dec_str(now) + seq!['.'] + exts[0]
        } else {
            dec_str(now)
        },
    }
}

/// What filename resolution returns for a source URL, a response status
/// and the response's disposition and content-type headers, with `now`
/// standing in wherever a timestamp is synthesized.
pub open spec fn resolve_spec(
    url: Seq<char>,
    status: int,
    cd: Option<Seq<char>>,
    ct: Option<Seq<char>>,
    now: nat,
) -> Result<Seq<char>, ResolveError> {
    if status != 200 {
        Err(ResolveError::FileNotFound)
    } else {
        let cte = match ct {
            Some(c) => c,
            None => octet_stream(),
        };
        let name0 = match cd {
            Some(h) => cd_name_spec(h),
            None => None,
        };
        match name0 {
            Some(nm) => Ok(preprocess_name(named_with_type(Some(nm), cte, now), now)),
            None => if !crate::urlinfo::url_is_valid(url) {
                Err(ResolveError::UrlInvalid)
            } else {
                Ok(
                    preprocess_name(
                        named_with_type(url_name_spec(url), cte, now),
                        now,
                    ),
                )
            },
        }
    }
}

/// The name candidate that resolution repairs last: the disposition or
/// URL candidate, already adjusted for the content type.
pub open spec fn resolve_candidate(
    url: Seq<char>,
    cd: Option<Seq<char>>,
    ct: Option<Seq<char>>,
    now: nat,
) -> Seq<char> {
    let cte = match ct {
        Some(c) => c,
        None => octet_stream(),
    };
    let name0 = match cd {
        Some(h) => cd_name_spec(h),
        None => None,
    };
    match name0 {
        Some(nm) => named_with_type(Some(nm), cte, now),
        None => named_with_type(url_name_spec(url), cte, now),
    }
}

/// Whatever resolution returns, when it returns a name at all, is
/// non-empty and sanitized. The inputs left out are those the repair step
/// cannot save: a candidate that trims away to nothing or to a reserved
/// literal, and an invalid candidate whose own extension carries a path
/// separator.
pub proof fn lemma_resolve_sanitized(
    url: Seq<char>,
    status: int,
    cd: Option<Seq<char>>,
    ct: Option<Seq<char>>,
    now: nat,
)
    requires
        valid_filename(resolve_candidate(url, cd, ct, now)) ==> trim_prefix_spec(
            trim_spec(resolve_candidate(url, cd, ct, now)),
            seq!['~', '$'],
        ).len() > 0,
        valid_filename(resolve_candidate(url, cd, ct, now)) ==> !invalid_names().contains(
            trim_prefix_spec(trim_spec(resolve_candidate(url, cd, ct, now)), seq!['~', '$']),
        ),
        (!valid_filename(resolve_candidate(url, cd, ct, now)) && has_dot(
            resolve_candidate(url, cd, ct, now),
        )) ==> !contains_sub(after_last_dot(resolve_candidate(url, cd, ct, now)), seq!['/']),
        (!valid_filename(resolve_candidate(url, cd, ct, now)) && has_dot(
            resolve_candidate(url, cd, ct, now),
        )) ==> !contains_sub(after_last_dot(resolve_candidate(url, cd, ct, now)), seq!['\\']),
    ensures
        match resolve_spec(url, status, cd, ct, now) {
            Ok(name) => name.len() > 0 && valid_filename(name),
            Err(_) => true,
        },
{
    lemma_preprocess_name_sanitized(resolve_candidate(url, cd, ct, now), now);
}

/// The parts of an HTTP response that filename resolution reads. The
/// headers arrive as already-decoded strings: `None` means the header is
/// absent, and resolution then falls back to the URL name or the generic
/// content type. A caller that cannot decode a header's bytes (the wire
/// allows bytes no `String` can hold) must surface that as its own error
/// before building this value, not map the header to `None`.
pub struct HttpResponseInfo {
    /// The response status code.
    pub status: u16,
    /// The decoded `Content-Disposition` header value, when the response
    /// carries one.
    pub content_disposition: Option<String>,
    /// The decoded `Content-Type` header value, when the response carries
    /// one.
    pub content_type: Option<String>,
}

impl HttpResponseInfo {
    pub open spec fn cd_view(&self) -> Option<Seq<char>> {
        match self.content_disposition {
            Some(h) => Some(h@),
            None => None,
        }
    }

    pub open spec fn ct_view(&self) -> Option<Seq<char>> {
        match self.content_type {
            Some(c) => Some(c@),
            None => None,
        }
    }
}

fn contains_ext(exts: &Vec<String>, oe: &Vec<char>) -> (r: bool)
    ensures
        r == exts@.map_values(|s: String| s@).contains(oe@),
{
    let ghost view = exts@.map_values(|s: String| s@);
    let mut i: usize = 0;
    while i < exts.len()
        invariant
            view == exts@.map_values(|s: String| s@),
            i <= exts@.len(),
            forall|k: int| 0 <= k < i ==> view[k] != oe@,
        decreases exts@.len() - i,
    {
        let e = crate::strutil::str_to_chars(exts[i].as_str());
        proof {
            assert(view[i as int] == exts@[i as int]@);
        }
        if crate::text::eq_chars(&e, oe) {
            proof {
                assert(view.contains(oe@));
            }
            return true;
        }
        i = i + 1;
    }
    proof {
        if view.contains(oe@) {
            let k = choose|k: int| 0 <= k < view.len() && view[k] == oe@;
            assert(false);
        }
    }
    false
}

/// Resolves the destination filename for a file fetched from `url`, given
/// the response's status and headers; `now` is the timestamp used wherever
/// a name must be synthesized.
pub fn get_filename(url: &str, response: &HttpResponseInfo, now: u64) -> (r: Result<
    String,
    ResolveError,
>)
    ensures
        match r {
            Ok(s) => resolve_spec(
                url@,
                response.status as int,
                response.cd_view(),
                response.ct_view(),
                now as nat,
            ) == Ok::<Seq<char>, ResolveError>(s@),
            Err(e) => resolve_spec(
                url@,
                response.status as int,
                response.cd_view(),
                response.ct_view(),
                now as nat,
            ) == Err::<Seq<char>, ResolveError>(e),
        },
{
    if response.status != 200 {
        return Err(ResolveError::FileNotFound);
    }
    let name0: Option<String> = match &response.content_disposition {
        Some(h) => get_filename_from_cd(h.as_str()),
        None => None,
    };
    let name1: Option<String> = match name0 {
        Some(nm) => Some(nm),
        None => {
            match get_filename_from_url(url) {
                Ok(opt) => opt,
                Err(e) => {
                    return Err(e);
                },
            }
        },
    };
    let ct_eff: &str = match &response.content_type {
        Some(c) => c.as_str(),
        None => "application/octet-stream",
    };
    let ct_chars = crate::strutil::str_to_chars(ct_eff);
    let octet: Vec<char> = vec![
        'a', 'p', 'p', 'l', 'i', 'c', 'a', 't', 'i', 'o', 'n', '/', 'o', 'c', 't', 'e', 't',
        '-', 's', 't', 'r', 'e', 'a', 'm',
    ];
    proof {
        reveal_strlit("application/octet-stream");
        assert(octet@ =~= octet_stream());
        if response.content_type is None {
            assert(ct_chars@ =~= octet_stream());
        }
    }
    let ghost cte = ct_chars@;
    let exts = crate::mimeinfo::guess_exts(ct_eff);
    let is_octet = crate::text::eq_chars(&ct_chars, &octet);
    let dot: Vec<char> = vec!['.'];
    proof {
        assert(dot@ =~= seq!['.']);
    }
    let named: Vec<char> = match name1 {
        Some(f) => {
            let f_chars = crate::strutil::str_to_chars(f.as_str());
            if exts.len() > 0 && !is_octet {
                let oe = get_ext(&f_chars);
                let matches_ext = contains_ext(&exts, &oe);
                if f_chars.len() < 100 {
                    if !matches_ext {
                        let e0 = crate::strutil::str_to_chars(exts[0].as_str());
                        proof {
                            assert(exts@.map_values(|s: String| s@)[0] == exts@[0]@);
                        }
                        crate::text::concat_chars(
                            &crate::text::concat_chars(&f_chars, &dot),
                            &e0,
                        )
                    } else {
                        f_chars
                    }
                } else {
                    let ts = crate::num::u64_dec_chars(now);
                    if matches_ext {
                        crate::text::concat_chars(&crate::text::concat_chars(&ts, &dot), &oe)
                    } else {
                        let e0 = crate::strutil::str_to_chars(exts[0].as_str());
                        proof {
                            assert(exts@.map_values(|s: String| s@)[0] == exts@[0]@);
                        }
                        crate::text::concat_chars(&crate::text::concat_chars(&ts, &dot), &e0)
                    }
                }
            } else if f_chars.len() > 100 {
                crate::num::u64_dec_chars(now)
            } else {
                f_chars
            }
        },
        None => {
            let ts = crate::num::u64_dec_chars(now);
            if exts.len() > 0 && !is_octet {
                let e0 = crate::strutil::str_to_chars(exts[0].as_str());
                proof {
                    assert(exts@.map_values(|s: String| s@)[0] == exts@[0]@);
                }
                crate::text::concat_chars(&crate::text::concat_chars(&ts, &dot), &e0)
            } else {
                ts
            }
        },
    };
    let repaired = preprocess_url_file_name(&named, now);
    Ok(crate::strutil::chars_to_string(&repaired))
}

/// What the library reads of a document carried by a chat message.
pub struct TgDocument {
    /// The name the source gave the document; may be empty.
    pub name: String,
    /// The source's document id.
    pub id: i64,
    /// The mime type the source reports, when it reports one.
    pub mime_type: Option<String>,
    /// The size in bytes the source reports.
    pub size: i64,
}

/// What the library reads of a media item attached to a chat message.
pub enum TgMedia {
    /// A photo, with its id and size.
    Photo { id: i64, size: i64 },
    /// A plain document.
    Document(TgDocument),
    /// A sticker, which carries a document.
    Sticker(TgDocument),
    /// Any other media kind.
    Other,
}

/// The name a document yields before repair: its own name, or, when that
/// is empty and a mime type is known, its id with the first implied
/// extension.
pub open spec fn tg_doc_name_spec(d: TgDocument) -> Seq<char> {
    if d.name@.len() > 0 {
        d.name@
    } else {
        match d.mime_type {
            Some(m) => {
                let exts = crate::mimeinfo::guessed_exts(m@);
                if exts.len() == 0 {
                    crate::num::dec_str_signed(d.id as int)
                } else {
                    crate::num::dec_str_signed(d.id as int) + seq!['.'] + exts[0]
                }
            },
            None => d.name@,
        }
    }
}

/// The repair step for a chat-sourced name: a valid name is trimmed and
/// loses the temporary-file marker prefix; an invalid one becomes the id
/// with the name's lowered extension.
pub open spec fn tg_repair(f: Seq<char>, id: int) -> Seq<char> {
    if valid_filename(f) {
        trim_prefix_spec(trim_spec(f), seq!['~', '$'])
    } else {
        crate::num::dec_str_signed(id) + seq!['.'] + get_ext_spec(f)
    }
}

/// The destination filename a media item yields.
pub open spec fn tg_name_spec(m: TgMedia) -> Seq<char> {
    match m {
        TgMedia::Photo { id, .. } => crate::num::dec_str_signed(id as int) + seq![
            '.',
            'j',
            'p',
            'g',
        ],
        TgMedia::Document(d) => tg_repair(tg_doc_name_spec(d), d.id as int),
        TgMedia::Sticker(d) => tg_repair(tg_doc_name_spec(d), d.id as int),
        TgMedia::Other => tg_repair(Seq::empty(), 0),
    }
}

/// The size the source reports for the media, as the unsigned byte count
/// the engine tracks.
pub open spec fn tg_size_spec(m: TgMedia) -> int {
    match m {
        TgMedia::Photo { size, .. } => size as int,
        TgMedia::Document(d) => d.size as int,
        TgMedia::Sticker(d) => d.size as int,
        TgMedia::Other => 0,
    }
}

pub fn get_tg_file_size(media: &TgMedia) -> (r: u64)
    ensures
        tg_size_spec(*media) >= 0 ==> r as int == tg_size_spec(*media),
        tg_size_spec(*media) < 0 ==> r as int == tg_size_spec(*media) + 0x1_0000_0000_0000_0000,
{
    let size: i64 = match media {
        TgMedia::Photo { size, .. } => *size,
        TgMedia::Document(d) => d.size,
        TgMedia::Sticker(d) => d.size,
        TgMedia::Other => 0,
    };
    if size >= 0 {
        size as u64
    } else {
        let wide: i128 = (size as i128) + 0x1_0000_0000_0000_0000i128;
        wide as u64
    }
}

/// The document's usable name and its id.
pub fn get_tg_document_name_and_id(document: &TgDocument) -> (r: (String, i64))
    ensures
        r.0@ == tg_doc_name_spec(*document),
        r.1 == document.id,
{
    let name_chars = crate::strutil::str_to_chars(document.name.as_str());
    if name_chars.len() > 0 {
        (document.name.clone(), document.id)
    } else {
        match &document.mime_type {
            Some(m) => {
                let exts = crate::mimeinfo::guess_exts(m.as_str());
                let id_str = crate::num::i64_to_dec(document.id);
                if exts.len() == 0 {
                    (id_str, document.id)
                } else {
                    proof {
                        assert(exts@.map_values(|s: String| s@)[0] == exts@[0]@);
                    }
                    let id_chars = crate::strutil::str_to_chars(id_str.as_str());
                    let dot: Vec<char> = vec!['.'];
                    proof {
                        assert(dot@ =~= seq!['.']);
                    }
                    let e0 = crate::strutil::str_to_chars(exts[0].as_str());
                    let full = crate::text::concat_chars(
                        &crate::text::concat_chars(&id_chars, &dot),
                        &e0,
                    );
                    (crate::strutil::chars_to_string(&full), document.id)
                }
            },
            None => (document.name.clone(), document.id),
        }
    }
}

fn tg_repair_exec(f: &Vec<char>, id: i64) -> (r: String)
    ensures
        r@ == tg_repair(f@, id as int),
{
    if validate_filename(f) {
        let trimmed = trim_chars(f);
        let marker: Vec<char> = vec!['~', '$'];
        proof {
            assert(marker@ =~= seq!['~', '$']);
        }
        let stripped = trim_prefix(&trimmed, &marker);
        crate::strutil::chars_to_string(&stripped)
    } else {
        let id_chars = crate::strutil::str_to_chars(crate::num::i64_to_dec(id).as_str());
        let dot: Vec<char> = vec!['.'];
        proof {
            assert(dot@ =~= seq!['.']);
        }
        let ext = get_ext(f);
        let full = crate::text::concat_chars(&crate::text::concat_chars(&id_chars, &dot), &ext);
        crate::strutil::chars_to_string(&full)
    }
}

/// Resolves the destination filename for a media item taken from a chat
/// message.
pub fn preprocess_tg_file_name(media: &TgMedia) -> (r: String)
    ensures
        r@ == tg_name_spec(*media),
{
    match media {
        TgMedia::Photo { id, .. } => {
            let id_chars = crate::strutil::str_to_chars(crate::num::i64_to_dec(*id).as_str());
            let jpg: Vec<char> = vec!['.', 'j', 'p', 'g'];
            proof {
                assert(jpg@ =~= seq!['.', 'j', 'p', 'g']);
            }
            let full = crate::text::concat_chars(&id_chars, &jpg);
            proof {
                assert(full@ =~= crate::num::dec_str_signed(*id as int) + seq![
                    '.',
                    'j',
                    'p',
                    'g',
                ]);
            }
            crate::strutil::chars_to_string(&full)
        },
        TgMedia::Document(d) => {
            let (name, id) = get_tg_document_name_and_id(d);
            let name_chars = crate::strutil::str_to_chars(name.as_str());
            tg_repair_exec(&name_chars, id)
        },
        TgMedia::Sticker(d) => {
            let (name, id) = get_tg_document_name_and_id(d);
            let name_chars = crate::strutil::str_to_chars(name.as_str());
            tg_repair_exec(&name_chars, id)
        },
        TgMedia::Other => {
            let empty: Vec<char> = Vec::new();
            tg_repair_exec(&empty, 0)
        },
    }
}


proof fn lemma_dec_str_signed_clean(n: int)
    ensures
        crate::num::dec_str_signed(n).len() > 0,
        forall|i: int|
            0 <= i < crate::num::dec_str_signed(n).len() ==> (crate::num::is_digit_char(
                #[trigger] crate::num::dec_str_signed(n)[i],
            ) || crate::num::dec_str_signed(n)[i] == '-'),
{
    if n < 0 {
        lemma_dec_str_valid((-n) as nat);
        let d = seq!['-'] + crate::num::dec_str((-n) as nat);
        assert(forall|i: int|
            1 <= i < d.len() ==> d[i] == crate::num::dec_str((-n) as nat)[i - 1]);
    } else {
        lemma_dec_str_valid(n as nat);
    }
}

/// An id rendered in decimal, a dot, and an extension free of dots and
/// separators make a usable filename.
proof fn lemma_id_dot_ext_valid(idstr: Seq<char>, ext: Seq<char>)
    requires
        idstr.len() > 0,
        forall|i: int|
            0 <= i < idstr.len() ==> (crate::num::is_digit_char(#[trigger] idstr[i]) || idstr[i]
                == '-'),
        forall|i: int| 0 <= i < ext.len() ==> #[trigger] ext[i] != '.',
        !contains_sub(ext, seq!['/']),
        !contains_sub(ext, seq!['\\']),
    ensures
        (idstr + seq!['.'] + ext).len() > 0,
        valid_filename(idstr + seq!['.'] + ext),
{
    let r = idstr + seq!['.'] + ext;
    assert(r.len() > 0);
    if invalid_names().contains(r) {
        let i = choose|i: int| 0 <= i < invalid_names().len() && invalid_names()[i] == r;
        assert(i == 0 || i == 1);
        assert(r[0] == '.');
        assert(r[0] == idstr[0]);
        assert(false);
    }
    assert forall|i: int| 0 <= i < invalid_components().len() implies !contains_sub(
        r,
        #[trigger] invalid_components()[i],
    ) by {
        let p = invalid_components()[i];
        if contains_sub(r, p) {
            let j = choose|j: int| match_at(r, p, j);
            assert(r.subrange(j, j + p.len())[0] == r[j]);
            assert(r[j] == p[0]);
            if i == 0 || i == 1 {
                if j < idstr.len() {
                    assert(crate::num::is_digit_char(idstr[j]) || idstr[j] == '-');
                    assert(false);
                } else if j == idstr.len() {
                    assert(r[j] == '.');
                    assert(false);
                } else {
                    assert(r[j] == ext[j - idstr.len() - 1]);
                    assert(match_at(ext, p, j - idstr.len() - 1)) by {
                        assert(ext.subrange(
                            j - idstr.len() - 1,
                            j - idstr.len() - 1 + p.len(),
                        ) =~= r.subrange(j, j + p.len()));
                    }
                    assert(contains_sub(ext, p));
                    assert(false);
                }
            } else {
                assert(i == 2);
                assert(p =~= seq!['.', '.']);
                assert(r.subrange(j, j + p.len())[1] == r[j + 1]);
                assert(r[j] == '.' && r[j + 1] == '.');
                if j < idstr.len() {
                    assert(crate::num::is_digit_char(idstr[j]) || idstr[j] == '-');
                    assert(false);
                } else if j == idstr.len() {
                    assert(r[j + 1] == ext[0]);
                    assert(false);
                } else {
                    assert(r[j] == ext[j - idstr.len() - 1]);
                    assert(false);
                }
            }
        }
    }
}

proof fn lemma_ascii_lower_keeps_no_dot(c: char)
    requires
        c != '.',
    ensures
        ascii_lower_char(c) != '.',
{
    if 65 <= c as u32 <= 90 {
        assert(c as u8 == c as u32 as u8);
        assert(65 <= c as u8 <= 90);
        let lowered = ((c as u8) + 32) as char;
        assert(lowered as u32 == (c as u8 + 32) as u32);
        assert(97 <= lowered as u32 <= 122);
        assert('.' as u32 == 46);
    }
}

proof fn lemma_get_ext_no_dot(s: Seq<char>)
    ensures
        forall|i: int| 0 <= i < get_ext_spec(s).len() ==> #[trigger] get_ext_spec(s)[i] != '.',
{
    lemma_after_last_dot_no_dot(s);
    assert forall|i: int| 0 <= i < get_ext_spec(s).len() implies #[trigger] get_ext_spec(s)[i]
        != '.' by {
        assert(get_ext_spec(s)[i] == ascii_lower_char(after_last_dot(s)[i]));
        lemma_ascii_lower_keeps_no_dot(after_last_dot(s)[i]);
    }
}

/// The chat-media repair yields a non-empty, sanitized filename. The
/// inputs left out are those the repair cannot save: a valid name that
/// trims away to nothing or to a reserved literal, and an invalid name
/// whose own extension carries a path separator.
pub proof fn lemma_tg_repair_sanitized(f: Seq<char>, id: int)
    requires
        valid_filename(f) ==> trim_prefix_spec(trim_spec(f), seq!['~', '$']).len() > 0,
        valid_filename(f) ==> !invalid_names().contains(
            trim_prefix_spec(trim_spec(f), seq!['~', '$']),
        ),
        !valid_filename(f) ==> !contains_sub(get_ext_spec(f), seq!['/']),
        !valid_filename(f) ==> !contains_sub(get_ext_spec(f), seq!['\\']),
    ensures
        tg_repair(f, id).len() > 0,
        valid_filename(tg_repair(f, id)),
{
    if valid_filename(f) {
        lemma_trimmed_name_sanitized(f);
    } else {
        lemma_dec_str_signed_clean(id);
        lemma_get_ext_no_dot(f);
        lemma_id_dot_ext_valid(crate::num::dec_str_signed(id), get_ext_spec(f));
    }
}

/// Every media value resolves to a non-empty, sanitized filename, under
/// the same exclusions as the repair itself; a photo's or an unnamed
/// document's synthesized name needs none.
pub proof fn lemma_tg_name_sanitized(m: TgMedia)
    requires
        (m matches TgMedia::Document(d) && valid_filename(tg_doc_name_spec(d)))
            ==> trim_prefix_spec(trim_spec(tg_doc_name_spec(m->Document_0)), seq!['~', '$']).len()
            > 0 && !invalid_names().contains(
            trim_prefix_spec(trim_spec(tg_doc_name_spec(m->Document_0)), seq!['~', '$']),
        ),
        (m matches TgMedia::Document(d) && !valid_filename(tg_doc_name_spec(d)))
            ==> !contains_sub(get_ext_spec(tg_doc_name_spec(m->Document_0)), seq!['/'])
            && !contains_sub(get_ext_spec(tg_doc_name_spec(m->Document_0)), seq!['\\']),
        (m matches TgMedia::Sticker(d) && valid_filename(tg_doc_name_spec(d)))
            ==> trim_prefix_spec(trim_spec(tg_doc_name_spec(m->Sticker_0)), seq!['~', '$']).len()
            > 0 && !invalid_names().contains(
            trim_prefix_spec(trim_spec(tg_doc_name_spec(m->Sticker_0)), seq!['~', '$']),
        ),
        (m matches TgMedia::Sticker(d) && !valid_filename(tg_doc_name_spec(d)))
            ==> !contains_sub(get_ext_spec(tg_doc_name_spec(m->Sticker_0)), seq!['/'])
            && !contains_sub(get_ext_spec(tg_doc_name_spec(m->Sticker_0)), seq!['\\']),
    ensures
        tg_name_spec(m).len() > 0,
        valid_filename(tg_name_spec(m)),
{
    match m {
        TgMedia::Photo { id, .. } => {
            lemma_dec_str_signed_clean(id as int);
            let jpg = seq!['j', 'p', 'g'];
            assert forall|i: int| 0 <= i < jpg.len() implies #[trigger] jpg[i] != '.' by {}
            assert(!contains_sub(jpg, seq!['/'])) by {
                if contains_sub(jpg, seq!['/']) {
                    let j = choose|j: int| match_at(jpg, seq!['/'], j);
                    assert(jpg.subrange(j, j + 1)[0] == jpg[j]);
                    assert(jpg[j] == '/');
                    assert(false);
                }
            }
            assert(!contains_sub(jpg, seq!['\\'])) by {
                if contains_sub(jpg, seq!['\\']) {
                    let j = choose|j: int| match_at(jpg, seq!['\\'], j);
                    assert(jpg.subrange(j, j + 1)[0] == jpg[j]);
                    assert(jpg[j] == '\\');
                    assert(false);
                }
            }
            lemma_id_dot_ext_valid(crate::num::dec_str_signed(id as int), jpg);
            assert(crate::num::dec_str_signed(id as int) + seq!['.'] + jpg =~= tg_name_spec(m));
        },
        TgMedia::Document(d) => {
            lemma_tg_repair_sanitized(tg_doc_name_spec(d), d.id as int);
        },
        TgMedia::Sticker(d) => {
            lemma_tg_repair_sanitized(tg_doc_name_spec(d), d.id as int);
        },
        TgMedia::Other => {
            let empty = Seq::<char>::empty();
            assert(!valid_filename(empty));
            assert(after_last_dot(empty).len() == 0);
            assert(get_ext_spec(empty) =~= Seq::<char>::empty());
            assert(!contains_sub(get_ext_spec(empty), seq!['/'])) by {
                if contains_sub(get_ext_spec(empty), seq!['/']) {
                    let j = choose|j: int| match_at(get_ext_spec(empty), seq!['/'], j);
                    assert(false);
                }
            }
            assert(!contains_sub(get_ext_spec(empty), seq!['\\'])) by {
                if contains_sub(get_ext_spec(empty), seq!['\\']) {
                    let j = choose|j: int| match_at(get_ext_spec(empty), seq!['\\'], j);
                    assert(false);
                }
            }
            lemma_tg_repair_sanitized(empty, 0);
        },
    }
}

} // verus!
