//! Small verified helpers on strings and character vectors that the rest of
//! the library builds on.

use vstd::prelude::*;
use vstd::string::StrSliceExecFns;

verus! {

/// Relies on `String::push`: appends one character to the end of the string.
#[verifier::external_body]
pub fn push_char(s: &mut String, c: char)
    ensures
        final(s)@ == old(s)@.push(c),
{
    s.push(c);
}

/// The characters of `s`, as a vector.
pub fn str_to_chars(s: &str) -> (r: Vec<char>)
    ensures
        r@ == s@,
{
    let n: usize = s.unicode_len();
    let mut r: Vec<char> = Vec::new();
    let mut i: usize = 0;
    while i < n
        invariant
            n == s@.len(),
            i <= n,
            r@ == s@.take(i as int),
        decreases n - i,
    {
        let c = s.get_char(i);
        r.push(c);
        proof {
            assert(s@.take(i + 1 as int) =~= s@.take(i as int).push(s@[i as int]));
        }
        i = i + 1;
    }
    proof {
        assert(s@.take(n as int) =~= s@);
    }
    r
}

/// A string holding exactly the characters of `v`.
pub fn chars_to_string(v: &Vec<char>) -> (r: String)
    ensures
        r@ == v@,
{
    let mut r = String::new();
    let mut i: usize = 0;
    while i < v.len()
        invariant
            i <= v@.len(),
            r@ == v@.take(i as int),
        decreases v@.len() - i,
    {
        push_char(&mut r, v[i]);
        proof {
            assert(v@.take(i + 1 as int) =~= v@.take(i as int).push(v@[i as int]));
        }
        i = i + 1;
    }
    proof {
        assert(v@.take(v@.len() as int) =~= v@);
    }
    r
}

/// All the bytes of a sequence of chunks, in order.
pub open spec fn chunks_bytes(chunks: Seq<Vec<u8>>) -> Seq<u8> {
    chunks.map_values(|c: Vec<u8>| c@).flatten()
}

/// Gathers a stream's chunks into the single byte buffer they carry, in
/// order: the re-assembly a buffered upload makes before it sends.
pub fn concat_chunks(chunks: &Vec<Vec<u8>>) -> (r: Vec<u8>)
    ensures
        r@ == chunks_bytes(chunks@),
{
    let ghost m = chunks@.map_values(|c: Vec<u8>| c@);
    let mut r: Vec<u8> = Vec::new();
    proof {
        assert(m.take(0) =~= Seq::<Seq<u8>>::empty());
        assert(m.take(0).flatten() =~= Seq::<u8>::empty());
    }
    let mut i: usize = 0;
    while i < chunks.len()
        invariant
            m == chunks@.map_values(|c: Vec<u8>| c@),
            i <= chunks@.len(),
            r@ == m.take(i as int).flatten(),
        decreases chunks@.len() - i,
    {
        let chunk = &chunks[i];
        let ghost r0 = r@;
        let mut j: usize = 0;
        while j < chunk.len()
            invariant
                j <= chunk@.len(),
                r@ == r0 + chunk@.take(j as int),
            decreases chunk@.len() - j,
        {
            r.push(chunk[j]);
            proof {
                assert(r0 + chunk@.take(j + 1 as int) =~= (r0 + chunk@.take(j as int)).push(
                    chunk@[j as int],
                ));
            }
            j = j + 1;
        }
        proof {
            assert(chunk@.take(chunk@.len() as int) =~= chunk@);
            assert(m[i as int] == chunks@[i as int]@);
            assert(m.take(i + 1 as int) =~= m.take(i as int).push(m[i as int]));
            m.take(i as int).lemma_flatten_push(m[i as int]);
        }
        i = i + 1;
    }
    proof {
        assert(m.take(chunks@.len() as int) =~= m);
    }
    r
}

} // verus!
