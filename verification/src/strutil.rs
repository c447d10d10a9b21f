use vstd::prelude::*;

verus! {

/// Relies on String's FromIterator over chars: the collected string holds
/// exactly the characters of the vector, in order.
#[verifier::external_body]
pub(crate) fn chars_to_string(v: &Vec<char>) -> (s: String)
    ensures
        s@ == v@,
{
    v.iter().collect()
}

/// The characters of a string, as a vector.
pub fn str_chars(s: &str) -> (r: Vec<char>)
    ensures
        r@ == s@,
{
    let n = s.unicode_len();
    let mut r: Vec<char> = Vec::new();
    let mut i: usize = 0;
    while i < n
        invariant
            n == s@.len(),
            i <= n,
            r@ == s@.subrange(0, i as int),
        decreases n - i,
    {
        let c = s.get_char(i);
        r.push(c);
        proof {
            assert(r@ =~= s@.subrange(0, i + 1 as int));
        }
        i = i + 1;
    }
    proof {
        assert(r@ =~= s@);
    }
    r
}

/// The substring of a character vector between two positions, as a string.
pub fn subrange_string(cs: &Vec<char>, a: usize, b: usize) -> (s: String)
    requires
        a <= b <= cs@.len(),
    ensures
        s@ == cs@.subrange(a as int, b as int),
{
    let mut out: Vec<char> = Vec::new();
    let mut j: usize = a;
    while j < b
        invariant
            a <= j <= b <= cs@.len(),
            out@ == cs@.subrange(a as int, j as int),
        decreases b - j,
    {
        out.push(cs[j]);
        proof {
            assert(out@ =~= cs@.subrange(a as int, j + 1 as int));
        }
        j = j + 1;
    }
    chars_to_string(&out)
}

/// A list of strings, seen as character sequences.
pub open spec fn strs_view(v: Seq<String>) -> Seq<Seq<char>> {
    v.map_values(|s: String| s@)
}

pub proof fn lemma_strs_view_len(v: Seq<String>)
    ensures
        strs_view(v).len() == v.len(),
{
}

pub proof fn lemma_strs_prepend(x: String, rest: Seq<String>)
    ensures
        strs_view(rest.insert(0, x)) == seq![x@] + strs_view(rest),
{
    assert(strs_view(rest.insert(0, x)) =~= seq![x@] + strs_view(rest));
}

pub proof fn lemma_strs_push(v: Seq<String>, x: String)
    ensures
        strs_view(v.push(x)) == strs_view(v).push(x@),
{
    assert(strs_view(v.push(x)) =~= strs_view(v).push(x@));
}

/// Whether the list holds the given text.
pub fn contains_name(v: &Vec<String>, x: &String) -> (r: bool)
    ensures
        r == strs_view(v@).contains(x@),
{
    let mut i: usize = 0;
    while i < v.len()
        invariant
            i <= v@.len(),
            forall|k: int| 0 <= k < i ==> strs_view(v@)[k] != x@,
        decreases v@.len() - i,
    {
        proof {
            assert(strs_view(v@)[i as int] == v@[i as int]@);
        }
        if v[i].eq(x) {
            proof {
                assert(strs_view(v@).contains(x@));
            }
            return true;
        }
        i = i + 1;
    }
    proof {
        if strs_view(v@).contains(x@) {
            let k = choose|k: int| 0 <= k < strs_view(v@).len() && strs_view(v@)[k] == x@;
            assert(strs_view(v@)[k] != x@);
        }
    }
    false
}

/// The decimal digits of a number, most significant first.
pub open spec fn dec_str(n: nat) -> Seq<char>
    decreases n,
{
    if n < 10 {
        seq![((48 + n) as u8) as char]
    } else {
        dec_str(n / 10).push(((48 + n % 10) as u8) as char)
    }
}

/// Render a number in decimal.
pub fn dec_chars(n: usize) -> (r: Vec<char>)
    ensures
        r@ == dec_str(n as nat),
    decreases n,
{
    if n < 10 {
        let mut r: Vec<char> = Vec::new();
        r.push((48 + n as u8) as char);
        proof {
            assert(r@ =~= dec_str(n as nat));
        }
        r
    } else {
        let mut r = dec_chars(n / 10);
        r.push((48 + (n % 10) as u8) as char);
        r
    }
}

/// Whether the string holds the character.
pub fn contains_char(s: &String, c: char) -> (r: bool)
    ensures
        r == s@.contains(c),
{
    let n = s.as_str().unicode_len();
    let mut i: usize = 0;
    while i < n
        invariant
            n == s@.len(),
            i <= n,
            forall|k: int| 0 <= k < i ==> s@[k] != c,
        decreases n - i,
    {
        if s.as_str().get_char(i) == c {
            proof {
                assert(s@.contains(c));
            }
            return true;
        }
        i = i + 1;
    }
    proof {
        if s@.contains(c) {
            let k = choose|k: int| 0 <= k < s@.len() && s@[k] == c;
            assert(s@[k] != c);
        }
    }
    false
}

} // verus!
