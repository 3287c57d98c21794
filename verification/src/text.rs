//! Plain text helpers shared by the tabs: characters of a string, copies,
//! appending, and looking for a fixed piece of text.

use vstd::prelude::*;

verus! {

/// The characters of `s`, in order.
pub fn chars_of(s: &str) -> (r: Vec<char>)
    ensures
        r@ == s@,
{
    let mut out: Vec<char> = Vec::new();
    for c in it: s.chars()
        invariant
            out@ == it.seq().take(it.index() as int),
            it.seq() == s@,
    {
        out.push(c);
    }
    out
}

/// `String::push` appends one character to the end of the string.
#[verifier::external_body]
pub(crate) fn push_char(s: &mut String, c: char)
    ensures
        final(s)@ == old(s)@.push(c),
{
    s.push(c)
}

/// A fresh `String` with the text of `s`.
pub(crate) fn owned(s: &str) -> (r: String)
    ensures
        r@ == s@,
{
    s.to_owned()
}

/// `pat` occurs in `hay` at index `i`.
pub open spec fn occurs_at(hay: Seq<char>, pat: Seq<char>, i: int) -> bool {
    0 <= i && i + pat.len() <= hay.len() && hay.subrange(i, i + pat.len()) == pat
}

/// `pat` occurs somewhere in `hay`.
pub open spec fn occurs_in(hay: Seq<char>, pat: Seq<char>) -> bool {
    exists|i: int| occurs_at(hay, pat, i)
}

/// Whether `pat` occurs in `hay`.
pub fn contains_text(hay: &str, pat: &str) -> (r: bool)
    ensures
        r == occurs_in(hay@, pat@),
{
    let h = chars_of(hay);
    let p = chars_of(pat);
    let n = p.len();
    if n > h.len() {
        assert forall|i: int| !#[trigger] occurs_at(hay@, pat@, i) by {}
        return false;
    }
    let last = h.len() - n;
    let mut i: usize = 0;
    while i <= last
        invariant
            h@ == hay@,
            p@ == pat@,
            n == p.len(),
            n <= h.len(),
            last == h.len() - n,
            i <= last + 1,
            forall|j: int| 0 <= j < i ==> !#[trigger] occurs_at(hay@, pat@, j),
        decreases last + 1 - i,
    {
        let mut k: usize = 0;
        let mut same = true;
        while k < n
            invariant
                n == p.len(),
                i <= last,
                last == h.len() - n,
                k <= n,
                same == forall|m: int| 0 <= m < k ==> h@[i + m] == p@[m],
            decreases n - k,
        {
            if h[i + k] != p[k] {
                same = false;
            }
            k = k + 1;
        }
        if same {
            assert(hay@.subrange(i as int, i + n) =~= pat@);
            assert(occurs_at(hay@, pat@, i as int));
            return true;
        }
        assert(!occurs_at(hay@, pat@, i as int)) by {
            let m = choose|m: int| 0 <= m < n && h@[i + m] != p@[m];
            if hay@.subrange(i as int, i + n) == pat@ {
                assert(hay@.subrange(i as int, i + n)[m] == hay@[i + m]);
            }
        }
        i = i + 1;
    }
    assert forall|j: int| !#[trigger] occurs_at(hay@, pat@, j) by {
        if 0 <= j < i {
        }
    }
    false
}

} // verus!
