//! Verified character-sequence operations: trimming, literal removal,
//! tag stripping, whitespace splitting and substring search.

use vstd::prelude::*;

verus! {

/// A character with the Unicode `White_Space` property, the set that
/// `str::trim` and `str::split_whitespace` go by.
pub open spec fn is_space_char(c: char) -> bool {
    let u = c as u32;
    (0x09 <= u && u <= 0x0D) || u == 0x20 || u == 0x85 || u == 0xA0 || u == 0x1680
        || (0x2000 <= u && u <= 0x200A) || u == 0x2028 || u == 0x2029 || u == 0x202F
        || u == 0x205F || u == 0x3000
}

pub fn is_space(c: char) -> (r: bool)
    ensures
        r == is_space_char(c),
{
    let u = c as u32;
    (0x09 <= u && u <= 0x0D) || u == 0x20 || u == 0x85 || u == 0xA0 || u == 0x1680
        || (0x2000 <= u && u <= 0x200A) || u == 0x2028 || u == 0x2029 || u == 0x202F
        || u == 0x205F || u == 0x3000
}

/// `s` with its leading characters satisfying `is_space_char` removed.
pub open spec fn trim_start_spec(s: Seq<char>) -> Seq<char>
    decreases s.len(),
{
    if s.len() > 0 && is_space_char(s[0]) {
        trim_start_spec(s.skip(1))
    } else {
        s
    }
}

/// `s` with its trailing characters satisfying `is_space_char` removed.
pub open spec fn trim_end_spec(s: Seq<char>) -> Seq<char>
    decreases s.len(),
{
    if s.len() > 0 && is_space_char(s[s.len() - 1]) {
        trim_end_spec(s.take(s.len() - 1))
    } else {
        s
    }
}

/// What `str::trim` returns.
pub open spec fn trim_spec(s: Seq<char>) -> Seq<char> {
    trim_end_spec(trim_start_spec(s))
}

pub fn trim_chars(v: &Vec<char>) -> (r: Vec<char>)
    ensures
        r@ == trim_spec(v@),
{
    proof {
        assert(v@.skip(0) =~= v@);
    }
    let mut a: usize = 0;
    while a < v.len() && is_space(v[a])
        invariant
            a <= v@.len(),
            trim_start_spec(v@) == trim_start_spec(v@.skip(a as int)),
        decreases v@.len() - a,
    {
        proof {
            assert(v@.skip(a as int).skip(1) =~= v@.skip(a + 1 as int));
        }
        a = a + 1;
    }
    proof {
        assert(trim_start_spec(v@.skip(a as int)) == v@.skip(a as int));
    }
    let mut b: usize = v.len();
    while b > a && is_space(v[b - 1])
        invariant
            a <= b <= v@.len(),
            trim_start_spec(v@) == v@.skip(a as int),
            trim_end_spec(v@.skip(a as int)) == trim_end_spec(v@.subrange(a as int, b as int)),
        decreases b,
    {
        proof {
            let t = v@.subrange(a as int, b as int);
            assert(t[t.len() - 1] == v@[b - 1]);
            assert(t.take(t.len() - 1) =~= v@.subrange(a as int, b - 1 as int));
        }
        b = b - 1;
    }
    proof {
        let t = v@.subrange(a as int, b as int);
        if b > a {
            assert(t[t.len() - 1] == v@[b - 1]);
        }
        assert(trim_end_spec(t) == t);
    }
    let mut r: Vec<char> = Vec::new();
    let mut i: usize = a;
    while i < b
        invariant
            a <= i <= b <= v@.len(),
            r@ == v@.subrange(a as int, i as int),
        decreases b - i,
    {
        r.push(v[i]);
        proof {
            assert(v@.subrange(a as int, i + 1 as int) =~= v@.subrange(a as int, i as int).push(
                v@[i as int],
            ));
        }
        i = i + 1;
    }
    r
}

/// `s` with every leading occurrence of the character `c` removed.
pub open spec fn trim_char_start_spec(s: Seq<char>, c: char) -> Seq<char>
    decreases s.len(),
{
    if s.len() > 0 && s[0] == c {
        trim_char_start_spec(s.skip(1), c)
    } else {
        s
    }
}

/// `s` with every trailing occurrence of the character `c` removed.
pub open spec fn trim_char_end_spec(s: Seq<char>, c: char) -> Seq<char>
    decreases s.len(),
{
    if s.len() > 0 && s[s.len() - 1] == c {
        trim_char_end_spec(s.take(s.len() - 1), c)
    } else {
        s
    }
}

/// What `str::trim_matches(c)` returns.
pub open spec fn trim_char_spec(s: Seq<char>, c: char) -> Seq<char> {
    trim_char_end_spec(trim_char_start_spec(s, c), c)
}

pub fn trim_char(v: &Vec<char>, c: char) -> (r: Vec<char>)
    ensures
        r@ == trim_char_spec(v@, c),
{
    proof {
        assert(v@.skip(0) =~= v@);
    }
    let mut a: usize = 0;
    while a < v.len() && v[a] == c
        invariant
            a <= v@.len(),
            trim_char_start_spec(v@, c) == trim_char_start_spec(v@.skip(a as int), c),
        decreases v@.len() - a,
    {
        proof {
            assert(v@.skip(a as int).skip(1) =~= v@.skip(a + 1 as int));
        }
        a = a + 1;
    }
    proof {
        assert(trim_char_start_spec(v@.skip(a as int), c) == v@.skip(a as int));
    }
    let mut b: usize = v.len();
    while b > a && v[b - 1] == c
        invariant
            a <= b <= v@.len(),
            trim_char_start_spec(v@, c) == v@.skip(a as int),
            trim_char_end_spec(v@.skip(a as int), c) == trim_char_end_spec(
                v@.subrange(a as int, b as int),
                c,
            ),
        decreases b,
    {
        proof {
            let t = v@.subrange(a as int, b as int);
            assert(t[t.len() - 1] == v@[b - 1]);
            assert(t.take(t.len() - 1) =~= v@.subrange(a as int, b - 1 as int));
        }
        b = b - 1;
    }
    proof {
        let t = v@.subrange(a as int, b as int);
        if b > a {
            assert(t[t.len() - 1] == v@[b - 1]);
        }
        assert(trim_char_end_spec(t, c) == t);
    }
    let mut r: Vec<char> = Vec::new();
    let mut i: usize = a;
    while i < b
        invariant
            a <= i <= b <= v@.len(),
            r@ == v@.subrange(a as int, i as int),
        decreases b - i,
    {
        r.push(v[i]);
        proof {
            assert(v@.subrange(a as int, i + 1 as int) =~= v@.subrange(a as int, i as int).push(
                v@[i as int],
            ));
        }
        i = i + 1;
    }
    r
}

/// Whether `p` occurs in `s` starting at index `i`.
pub open spec fn match_at(s: Seq<char>, p: Seq<char>, i: int) -> bool {
    0 <= i && i + p.len() <= s.len() && s.subrange(i, i + p.len()) == p
}

pub fn has_match_at(v: &Vec<char>, p: &Vec<char>, i: usize) -> (r: bool)
    requires
        i + p@.len() <= v@.len(),
    ensures
        r == match_at(v@, p@, i as int),
{
    let n: usize = v.len();
    let mut j: usize = 0;
    while j < p.len()
        invariant
            n == v@.len(),
            i + p@.len() <= n,
            j <= p@.len(),
            forall|k: int| 0 <= k < j ==> v@[i + k] == p@[k],
        decreases p@.len() - j,
    {
        if v[i + j] != p[j] {
            proof {
                assert(v@.subrange(i as int, i + p@.len())[j as int] == v@[i + j]);
            }
            return false;
        }
        j = j + 1;
    }
    proof {
        assert(v@.subrange(i as int, i + p@.len()) =~= p@);
    }
    true
}

/// `s` with every repetition of the prefix `p` removed from its front:
/// what `str::trim_start_matches(p)` returns for a non-empty `p`.
pub open spec fn trim_prefix_spec(s: Seq<char>, p: Seq<char>) -> Seq<char>
    decreases s.len(),
{
    if p.len() > 0 && match_at(s, p, 0) {
        trim_prefix_spec(s.skip(p.len() as int), p)
    } else {
        s
    }
}

pub fn trim_prefix(v: &Vec<char>, p: &Vec<char>) -> (r: Vec<char>)
    requires
        p@.len() > 0,
    ensures
        r@ == trim_prefix_spec(v@, p@),
{
    proof {
        assert(v@.skip(0) =~= v@);
    }
    let mut a: usize = 0;
    loop
        invariant
            p@.len() > 0,
            a <= v@.len(),
            trim_prefix_spec(v@, p@) == trim_prefix_spec(v@.skip(a as int), p@),
        ensures
            trim_prefix_spec(v@, p@) == v@.skip(a as int),
        decreases v@.len() - a,
    {
        if v.len() - a < p.len() {
            proof {
                assert(!match_at(v@.skip(a as int), p@, 0));
            }
            break ;
        }
        if has_match_at(v, p, a) {
            proof {
                let t = v@.skip(a as int);
                assert(t.subrange(0, p@.len() as int) =~= v@.subrange(a as int, a + p@.len()));
                assert(match_at(t, p@, 0));
                assert(t.skip(p@.len() as int) =~= v@.skip(a + p@.len()));
            }
            a = a + p.len();
        } else {
            proof {
                let t = v@.skip(a as int);
                assert(t.subrange(0, p@.len() as int) =~= v@.subrange(a as int, a + p@.len()));
                assert(!match_at(t, p@, 0));
            }
            break ;
        }
    }
    let mut r: Vec<char> = Vec::new();
    let mut i: usize = a;
    while i < v.len()
        invariant
            a <= i <= v@.len(),
            r@ == v@.subrange(a as int, i as int),
        decreases v@.len() - i,
    {
        r.push(v[i]);
        proof {
            assert(v@.subrange(a as int, i + 1 as int) =~= v@.subrange(a as int, i as int).push(
                v@[i as int],
            ));
        }
        i = i + 1;
    }
    proof {
        assert(v@.subrange(a as int, v@.len() as int) =~= v@.skip(a as int));
    }
    r
}

/// `s` with every occurrence of the non-empty literal `p` removed, scanning
/// left to right without rescanning: what `str::replace(p, "")` returns.
pub open spec fn remove_all_spec(s: Seq<char>, p: Seq<char>) -> Seq<char>
    decreases s.len(),
{
    if s.len() == 0 {
        s
    } else if p.len() > 0 && match_at(s, p, 0) {
        remove_all_spec(s.skip(p.len() as int), p)
    } else {
        seq![s[0]] + remove_all_spec(s.skip(1), p)
    }
}

pub fn remove_all(v: &Vec<char>, p: &Vec<char>) -> (r: Vec<char>)
    requires
        p@.len() > 0,
    ensures
        r@ == remove_all_spec(v@, p@),
{
    proof {
        assert(v@.skip(0) =~= v@);
    }
    let mut r: Vec<char> = Vec::new();
    let mut i: usize = 0;
    while i < v.len()
        invariant
            p@.len() > 0,
            i <= v@.len(),
            remove_all_spec(v@, p@) == r@ + remove_all_spec(v@.skip(i as int), p@),
        decreases v@.len() - i,
    {
        let matched = if p.len() <= v.len() - i {
            has_match_at(v, p, i)
        } else {
            false
        };
        if matched {
            proof {
                let t = v@.skip(i as int);
                assert(t.subrange(0, p@.len() as int) =~= v@.subrange(i as int, i + p@.len()));
                assert(match_at(t, p@, 0));
                assert(t.skip(p@.len() as int) =~= v@.skip(i + p@.len()));
            }
            i = i + p.len();
        } else {
            proof {
                let t = v@.skip(i as int);
                assert(t.len() > 0);
                if i + p@.len() <= v@.len() {
                    assert(t.subrange(0, p@.len() as int) =~= v@.subrange(i as int, i + p@.len()));
                }
                assert(!match_at(t, p@, 0));
                assert(t[0] == v@[i as int]);
                assert(t.skip(1) =~= v@.skip(i + 1));
                assert(r@ + remove_all_spec(t, p@) =~= r@.push(v@[i as int]) + remove_all_spec(
                    v@.skip(i + 1),
                    p@,
                ));
            }
            r.push(v[i]);
            i = i + 1;
        }
    }
    proof {
        assert(v@.skip(v@.len() as int).len() == 0);
        assert(r@ + remove_all_spec(v@.skip(v@.len() as int), p@) =~= r@);
    }
    r
}

/// Index of the first occurrence of `c` in `s`, or -1.
pub open spec fn find_ch(s: Seq<char>, c: char) -> int
    decreases s.len(),
{
    if s.len() == 0 {
        -1
    } else if s[0] == c {
        0
    } else {
        let r = find_ch(s.skip(1), c);
        if r < 0 {
            -1
        } else {
            1 + r
        }
    }
}

pub proof fn lemma_find_ch(s: Seq<char>, c: char)
    ensures
        find_ch(s, c) == -1 ==> forall|i: int| 0 <= i < s.len() ==> s[i] != c,
        find_ch(s, c) >= 0 ==> find_ch(s, c) < s.len() && s[find_ch(s, c)] == c && forall|i: int|
            0 <= i < find_ch(s, c) ==> s[i] != c,
    decreases s.len(),
{
    if s.len() > 0 && s[0] != c {
        lemma_find_ch(s.skip(1), c);
        assert(forall|i: int| 1 <= i < s.len() ==> s[i] == s.skip(1)[i - 1]);
    }
}

pub fn find_char_at(v: &Vec<char>, c: char) -> (r: Option<usize>)
    ensures
        match r {
            Some(i) => i == find_ch(v@, c),
            None => find_ch(v@, c) == -1,
        },
{
    proof {
        assert(v@.skip(0) =~= v@);
    }
    let mut i: usize = 0;
    while i < v.len()
        invariant
            i <= v@.len(),
            find_ch(v@, c) == if find_ch(v@.skip(i as int), c) < 0 {
                -1
            } else {
                i + find_ch(v@.skip(i as int), c)
            },
        decreases v@.len() - i,
    {
        proof {
            assert(v@.skip(i as int)[0] == v@[i as int]);
            assert(v@.skip(i as int).skip(1) =~= v@.skip(i + 1));
        }
        if v[i] == c {
            return Some(i);
        }
        i = i + 1;
    }
    None
}

/// `s` with every span from a literal `<pre` up to and including the next `>`
/// removed, scanning left to right: the pre-tag stripping step of `purify`.
pub open spec fn strip_pre_tags_spec(s: Seq<char>) -> Seq<char>
    decreases s.len(),
    via strip_pre_tags_spec_dec
{
    if s.len() == 0 {
        s
    } else if s.len() >= 4 && s.subrange(0, 4) == pre_marker() && find_ch(s.skip(4), '>') >= 0 {
        strip_pre_tags_spec(s.skip(4 + find_ch(s.skip(4), '>') + 1))
    } else {
        seq![s[0]] + strip_pre_tags_spec(s.skip(1))
    }
}

pub open spec fn pre_marker() -> Seq<char> {
    seq!['<', 'p', 'r', 'e']
}

#[via_fn]
proof fn strip_pre_tags_spec_dec(s: Seq<char>) {
    if s.len() >= 4 && s.subrange(0, 4) == pre_marker() && find_ch(s.skip(4), '>') >= 0 {
        lemma_find_ch(s.skip(4), '>');
    }
}

pub fn strip_pre_tags(v: &Vec<char>) -> (r: Vec<char>)
    ensures
        r@ == strip_pre_tags_spec(v@),
{
    proof {
        assert(v@.skip(0) =~= v@);
    }
    let marker: Vec<char> = vec!['<', 'p', 'r', 'e'];
    proof {
        assert(marker@ =~= pre_marker());
    }
    let mut r: Vec<char> = Vec::new();
    let mut i: usize = 0;
    while i < v.len()
        invariant
            marker@ == pre_marker(),
            i <= v@.len(),
            strip_pre_tags_spec(v@) == r@ + strip_pre_tags_spec(v@.skip(i as int)),
        decreases v@.len() - i,
    {
        let ghost t = v@.skip(i as int);
        let mut consumed: Option<usize> = None;
        if marker.len() <= v.len() - i {
            if has_match_at(v, &marker, i) {
                proof {
                    assert(t.subrange(0, 4) =~= v@.subrange(i as int, i + 4));
                }
                let mut tail: Vec<char> = Vec::new();
                let mut j: usize = i + 4;
                while j < v.len()
                    invariant
                        i + 4 <= j <= v@.len(),
                        tail@ == v@.subrange(i + 4, j as int),
                    decreases v@.len() - j,
                {
                    tail.push(v[j]);
                    proof {
                        assert(v@.subrange(i + 4, j + 1 as int) =~= v@.subrange(i + 4, j as int).push(
                            v@[j as int],
                        ));
                    }
                    j = j + 1;
                }
                proof {
                    assert(tail@ =~= t.skip(4));
                }
                if let Some(k) = find_char_at(&tail, '>') {
                    proof {
                        lemma_find_ch(tail@, '>');
                        assert(k < tail@.len());
                        assert(4 + k + 1 <= v@.len() - i);
                    }
                    consumed = Some(4 + k + 1);
                }
            }
        }
        match consumed {
            Some(step) => {
                proof {
                    assert(t.skip(step as int) =~= v@.skip(i + step));
                }
                i = i + step;
            },
            None => {
                proof {
                    if t.len() >= 4 && t.subrange(0, 4) == pre_marker() {
                        assert(t.subrange(0, 4) =~= v@.subrange(i as int, i + 4));
                        assert(match_at(v@, pre_marker(), i as int));
                    }
                    assert(t[0] == v@[i as int]);
                    assert(t.skip(1) =~= v@.skip(i + 1));
                    assert(r@ + strip_pre_tags_spec(t) =~= r@.push(v@[i as int])
                        + strip_pre_tags_spec(v@.skip(i + 1)));
                }
                r.push(v[i]);
                i = i + 1;
            },
        }
    }
    proof {
        assert(r@ + strip_pre_tags_spec(v@.skip(v@.len() as int)) =~= r@);
    }
    r
}

/// Whether the non-empty literal `p` occurs anywhere in `s`.
pub open spec fn contains_sub(s: Seq<char>, p: Seq<char>) -> bool {
    exists|i: int| match_at(s, p, i)
}

pub fn has_sub(v: &Vec<char>, p: &Vec<char>) -> (r: bool)
    requires
        p@.len() > 0,
    ensures
        r == contains_sub(v@, p@),
{
    if p.len() > v.len() {
        proof {
            assert(forall|i: int| !match_at(v@, p@, i));
        }
        return false;
    }
    let mut i: usize = 0;
    while i <= v.len() - p.len()
        invariant
            0 < p@.len() <= v@.len(),
            i <= v@.len() - p@.len() + 1,
            forall|k: int| 0 <= k < i ==> !match_at(v@, p@, k),
        decreases v@.len() - p@.len() + 1 - i,
    {
        if has_match_at(v, p, i) {
            return true;
        }
        i = i + 1;
    }
    proof {
        assert(forall|k: int| !match_at(v@, p@, k));
    }
    false
}

pub fn eq_chars(a: &Vec<char>, b: &Vec<char>) -> (r: bool)
    ensures
        r == (a@ == b@),
{
    if a.len() != b.len() {
        return false;
    }
    let mut i: usize = 0;
    while i < a.len()
        invariant
            a@.len() == b@.len(),
            i <= a@.len(),
            forall|k: int| 0 <= k < i ==> a@[k] == b@[k],
        decreases a@.len() - i,
    {
        if a[i] != b[i] {
            return false;
        }
        i = i + 1;
    }
    proof {
        assert(a@ =~= b@);
    }
    true
}

pub fn concat_chars(a: &Vec<char>, b: &Vec<char>) -> (r: Vec<char>)
    ensures
        r@ == a@ + b@,
{
    let mut r: Vec<char> = Vec::new();
    let mut i: usize = 0;
    while i < a.len()
        invariant
            i <= a@.len(),
            r@ == a@.take(i as int),
        decreases a@.len() - i,
    {
        r.push(a[i]);
        proof {
            assert(a@.take(i + 1 as int) =~= a@.take(i as int).push(a@[i as int]));
        }
        i = i + 1;
    }
    proof {
        assert(a@.take(a@.len() as int) =~= a@);
    }
    let mut j: usize = 0;
    while j < b.len()
        invariant
            j <= b@.len(),
            r@ == a@ + b@.take(j as int),
        decreases b@.len() - j,
    {
        r.push(b[j]);
        proof {
            assert(a@ + b@.take(j + 1 as int) =~= (a@ + b@.take(j as int)).push(b@[j as int]));
        }
        j = j + 1;
    }
    proof {
        assert(a@ + b@.take(b@.len() as int) =~= a@ + b@);
    }
    r
}

/// Length of the run of non-whitespace characters at the front of `s`.
pub open spec fn word_len(s: Seq<char>) -> nat
    decreases s.len(),
{
    if s.len() == 0 || is_space_char(s[0]) {
        0
    } else {
        1 + word_len(s.skip(1))
    }
}

/// The whitespace-separated words of `s`, in order, none empty:
/// what `str::split_whitespace` yields.
pub open spec fn split_ws_spec(s: Seq<char>) -> Seq<Seq<char>>
    decreases s.len(),
    via split_ws_spec_dec
{
    if s.len() == 0 {
        Seq::empty()
    } else if is_space_char(s[0]) {
        split_ws_spec(s.skip(1))
    } else {
        seq![s.take(word_len(s) as int)] + split_ws_spec(s.skip(word_len(s) as int))
    }
}

#[via_fn]
proof fn split_ws_spec_dec(s: Seq<char>) {
    if s.len() > 0 && !is_space_char(s[0]) {
        lemma_word_len_le(s);
    }
}

proof fn lemma_word_len_le(s: Seq<char>)
    ensures
        word_len(s) <= s.len(),
    decreases s.len(),
{
    if s.len() > 0 && !is_space_char(s[0]) {
        lemma_word_len_le(s.skip(1));
    }
}

pub fn split_ws(v: &Vec<char>) -> (r: Vec<Vec<char>>)
    ensures
        r@.map_values(|w: Vec<char>| w@) == split_ws_spec(v@),
{
    proof {
        assert(v@.skip(0) =~= v@);
    }
    let mut r: Vec<Vec<char>> = Vec::new();
    let mut i: usize = 0;
    while i < v.len()
        invariant
            i <= v@.len(),
            split_ws_spec(v@) == r@.map_values(|w: Vec<char>| w@) + split_ws_spec(
                v@.skip(i as int),
            ),
        decreases v@.len() - i,
    {
        let ghost t = v@.skip(i as int);
        proof {
            assert(t[0] == v@[i as int]);
            assert(t.skip(1) =~= v@.skip(i + 1));
        }
        if is_space(v[i]) {
            i = i + 1;
        } else {
            let start = i;
            let mut word: Vec<char> = Vec::new();
            word.push(v[i]);
            i = i + 1;
            while i < v.len() && !is_space(v[i])
                invariant
                    start < i <= v@.len(),
                    word@ == v@.subrange(start as int, i as int),
                    word_len(v@.skip(start as int)) == (i - start) + word_len(v@.skip(i as int)),
                decreases v@.len() - i,
            {
                proof {
                    let u = v@.skip(i as int);
                    assert(u[0] == v@[i as int]);
                    assert(u.skip(1) =~= v@.skip(i + 1));
                    assert(v@.subrange(start as int, i + 1 as int) =~= v@.subrange(
                        start as int,
                        i as int,
                    ).push(v@[i as int]));
                }
                word.push(v[i]);
                i = i + 1;
            }
            proof {
                let u = v@.skip(i as int);
                if i < v@.len() {
                    assert(u[0] == v@[i as int]);
                }
                assert(word_len(u) == 0);
                let w = word_len(t);
                assert(w == i - start);
                lemma_word_len_le(t);
                assert(t.take(w as int) =~= v@.subrange(start as int, i as int));
                assert(t.skip(w as int) =~= v@.skip(i as int));
                assert(r@.map_values(|w: Vec<char>| w@) + (seq![t.take(w as int)] + split_ws_spec(
                    t.skip(w as int),
                )) =~= r@.map_values(|w: Vec<char>| w@).push(word@) + split_ws_spec(
                    v@.skip(i as int),
                ));
            }
            r.push(word);
            proof {
                assert(r@.map_values(|w: Vec<char>| w@) =~= r@.drop_last().map_values(
                    |w: Vec<char>| w@,
                ).push(r@.last()@));
            }
        }
    }
    proof {
        assert(r@.map_values(|w: Vec<char>| w@) + split_ws_spec(v@.skip(v@.len() as int)) =~= r@
            .map_values(|w: Vec<char>| w@));
    }
    r
}

} // verus!
