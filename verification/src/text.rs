//! Small verified text utilities: character vectors, substring search, and
//! decimal formatting. All scanning in the crate works over `Vec<char>` so
//! that indexing is constant-time and contracts speak of `Seq<char>`.

use vstd::prelude::*;

verus! {

/// The characters of `s`, as a vector.
pub fn str_chars(s: &str) -> (r: Vec<char>)
    ensures
        r@ == s@,
{
    let n = s.unicode_len();
    let mut r: Vec<char> = Vec::new();
    let mut i: usize = 0;
    while i < n
        invariant
            n == s@.len(),
            0 <= i <= n,
            r@ == s@.subrange(0, i as int),
        decreases n - i,
    {
        r.push(s.get_char(i));
        i = i + 1;
        proof {
            assert(r@ =~= s@.subrange(0, i as int));
        }
    }
    proof {
        assert(r@ =~= s@);
    }
    r
}

/// Relies on `String::push`: appends one character to the string.
#[verifier::external_body]
fn push_char(s: &mut String, c: char)
    ensures
        final(s)@ == old(s)@.push(c),
{
    s.push(c)
}

/// A string holding exactly the characters of `v`.
pub fn chars_to_string(v: &Vec<char>) -> (r: String)
    ensures
        r@ == v@,
{
    let mut r = String::new();
    let mut i: usize = 0;
    while i < v.len()
        invariant
            0 <= i <= v@.len(),
            r@ == v@.subrange(0, i as int),
        decreases v@.len() - i,
    {
        push_char(&mut r, v[i]);
        i = i + 1;
        proof {
            assert(r@ =~= v@.subrange(0, i as int));
        }
    }
    proof {
        assert(r@ =~= v@);
    }
    r
}

/// Whether the needle `n` occurs in `h` starting at index `i`.
pub open spec fn occurs_at(h: Seq<char>, n: Seq<char>, i: int) -> bool {
    0 <= i && i + n.len() <= h.len() && h.subrange(i, i + n.len() as int) == n
}

/// Whether the needle `n` occurs anywhere in `h`.
pub open spec fn contains_seq(h: Seq<char>, n: Seq<char>) -> bool {
    exists|i: int| occurs_at(h, n, i)
}

/// Checks whether `n` occurs in `h` starting at `i`.
pub fn occurs_at_exec(h: &Vec<char>, n: &Vec<char>, i: usize) -> (r: bool)
    requires
        i + n@.len() <= h@.len(),
    ensures
        r == occurs_at(h@, n@, i as int),
{
    let hl: usize = h.len();
    let nl: usize = n.len();
    let mut j: usize = 0;
    while j < nl
        invariant
            hl == h@.len(),
            nl == n@.len(),
            i + nl <= hl,
            0 <= j <= nl,
            forall|k: int| 0 <= k < j ==> h@[i + k] == n@[k],
        decreases nl - j,
    {
        if h[i + j] != n[j] {
            assert(h@.subrange(i as int, i + n@.len() as int)[j as int] != n@[j as int]);
            return false;
        }
        j = j + 1;
    }
    proof {
        assert(h@.subrange(i as int, i + n@.len() as int) =~= n@);
    }
    true
}

/// The least index at or after `from` where `n` occurs in `h`, if any.
pub open spec fn first_occurrence_from(h: Seq<char>, n: Seq<char>, from: int) -> Option<int>
    decreases h.len() - from,
{
    if from + n.len() > h.len() {
        None
    } else if occurs_at(h, n, from) {
        Some(from)
    } else if from + n.len() == h.len() {
        None
    } else {
        first_occurrence_from(h, n, from + 1)
    }
}

/// Finds the least index at or after `from` where `n` occurs in `h`.
pub fn find_from(h: &Vec<char>, n: &Vec<char>, from: usize) -> (r: Option<usize>)
    requires
        from <= h@.len(),
    ensures
        match r {
            Some(i) => from <= i && Some(i as int) == first_occurrence_from(h@, n@, from as int)
                && occurs_at(h@, n@, i as int),
            None => first_occurrence_from(h@, n@, from as int) is None,
        },
{
    let mut i: usize = from;
    loop
        invariant
            from <= i <= h@.len() + 1,
            first_occurrence_from(h@, n@, from as int) == first_occurrence_from(h@, n@, i as int),
        decreases h@.len() + 1 - i,
    {
        if n.len() > h.len() || i > h.len() - n.len() {
            return None;
        }
        if occurs_at_exec(h, n, i) {
            return Some(i);
        }
        proof {
            if n@.len() == 0 {
                assert(h@.subrange(i as int, i as int) =~= n@);
            }
        }
        i = i + 1;
    }
}

/// Checks whether `n` occurs anywhere in `h`.
pub fn contains_vec(h: &Vec<char>, n: &Vec<char>) -> (r: bool)
    ensures
        r == contains_seq(h@, n@),
{
    let r = find_from(h, n, 0);
    proof {
        lemma_first_occurrence_iff_contains(h@, n@, 0);
    }
    r.is_some()
}

/// Ties `first_occurrence_from` to the existence of an occurrence.
proof fn lemma_first_occurrence_iff_contains(h: Seq<char>, n: Seq<char>, from: int)
    requires
        0 <= from <= h.len(),
    ensures
        first_occurrence_from(h, n, from) is Some <==> exists|i: int|
            i >= from && occurs_at(h, n, i),
        match first_occurrence_from(h, n, from) {
            Some(i) => i >= from && occurs_at(h, n, i) && forall|j: int|
                from <= j < i ==> !occurs_at(h, n, j),
            None => true,
        },
    decreases h.len() - from,
{
    if from + n.len() > h.len() {
        assert(forall|i: int| i >= from ==> !occurs_at(h, n, i));
    } else if occurs_at(h, n, from) {
    } else if from + n.len() == h.len() {
        assert(forall|i: int| i > from ==> !occurs_at(h, n, i));
    } else {
        lemma_first_occurrence_iff_contains(h, n, from + 1);
    }
}

/// Checks whether a string contains a needle given as a string.
pub fn str_contains(h: &str, n: &str) -> (r: bool)
    ensures
        r == contains_seq(h@, n@),
{
    let hv = str_chars(h);
    let nv = str_chars(n);
    contains_vec(&hv, &nv)
}

/// Checks whether `h` starts with `n`.
pub fn starts_with_vec(h: &Vec<char>, n: &Vec<char>) -> (r: bool)
    ensures
        r == (n@.len() <= h@.len() && h@.subrange(0, n@.len() as int) == n@),
{
    if n.len() > h.len() {
        return false;
    }
    occurs_at_exec(h, n, 0)
}

/// Checks whether two strings hold the same characters.
pub fn str_eq(a: &str, b: &str) -> (r: bool)
    ensures
        r == (a@ == b@),
{
    let x = a.to_owned();
    let y = b.to_owned();
    x == y
}

/// The decimal digit character for `d`.
pub open spec fn dec_digit(d: int) -> char {
    if d == 0 {
        '0'
    } else if d == 1 {
        '1'
    } else if d == 2 {
        '2'
    } else if d == 3 {
        '3'
    } else if d == 4 {
        '4'
    } else if d == 5 {
        '5'
    } else if d == 6 {
        '6'
    } else if d == 7 {
        '7'
    } else if d == 8 {
        '8'
    } else {
        '9'
    }
}

/// The usual decimal rendering of `n`, without leading zeros.
pub open spec fn dec_rep(n: int) -> Seq<char>
    decreases n,
{
    if n < 0 {
        Seq::empty()
    } else if n < 10 {
        seq![dec_digit(n)]
    } else {
        dec_rep(n / 10).push(dec_digit(n % 10))
    }
}

/// The digit character for `d`, which must be below ten.
pub fn dec_digit_exec(d: u64) -> (c: char)
    requires
        d < 10,
    ensures
        c == dec_digit(d as int),
{
    if d == 0 {
        '0'
    } else if d == 1 {
        '1'
    } else if d == 2 {
        '2'
    } else if d == 3 {
        '3'
    } else if d == 4 {
        '4'
    } else if d == 5 {
        '5'
    } else if d == 6 {
        '6'
    } else if d == 7 {
        '7'
    } else if d == 8 {
        '8'
    } else {
        '9'
    }
}

/// Renders `n` in decimal.
pub fn u64_to_string(n: u64) -> (r: String)
    ensures
        r@ == dec_rep(n as int),
    decreases n,
{
    if n < 10 {
        let mut r = String::new();
        push_char(&mut r, dec_digit_exec(n));
        proof {
            assert(r@ =~= seq![dec_digit(n as int)]);
        }
        r
    } else {
        let mut r = u64_to_string(n / 10);
        push_char(&mut r, dec_digit_exec(n % 10));
        r
    }
}


/// `h` with every occurrence of `n` removed, scanning left to right without
/// overlap, as `str::replace` with an empty replacement does.
pub open spec fn strip_spec(h: Seq<char>, n: Seq<char>) -> Seq<char>
    decreases h.len(),
{
    if n.len() == 0 || h.len() == 0 {
        h
    } else if occurs_at(h, n, 0) {
        strip_spec(h.skip(n.len() as int), n)
    } else {
        seq![h[0]] + strip_spec(h.drop_first(), n)
    }
}

/// Removes every occurrence of `n` from `h`, left to right.
pub fn strip_all(h: &Vec<char>, n: &Vec<char>) -> (r: Vec<char>)
    requires
        n@.len() > 0,
    ensures
        r@ == strip_spec(h@, n@),
{
    let hl: usize = h.len();
    let nl: usize = n.len();
    let mut r: Vec<char> = Vec::new();
    let mut i: usize = 0;
    proof {
        assert(h@.skip(0) =~= h@);
        assert(r@ + strip_spec(h@, n@) =~= strip_spec(h@, n@));
    }
    while i < hl
        invariant
            hl == h@.len(),
            nl == n@.len(),
            nl > 0,
            0 <= i <= hl,
            strip_spec(h@, n@) == r@ + strip_spec(h@.skip(i as int), n@),
        decreases hl - i,
    {
        let ghost rest = h@.skip(i as int);
        if nl <= hl - i && occurs_at_exec(h, n, i) {
            proof {
                assert(rest.subrange(0, nl as int) =~= h@.subrange(i as int, i + nl));
                assert(occurs_at(rest, n@, 0));
                assert(rest.skip(nl as int) =~= h@.skip(i + nl));
            }
            i = i + nl;
        } else {
            proof {
                if nl <= hl - i {
                    assert(rest.subrange(0, nl as int) =~= h@.subrange(i as int, i + nl));
                } else {
                    assert(rest.len() < nl);
                    assert(!occurs_at(rest, n@, 0));
                }
                assert(rest[0] == h@[i as int]);
                assert(rest.drop_first() =~= h@.skip(i + 1));
                assert((r@ + strip_spec(rest, n@)) =~= (r@.push(h@[i as int]) + strip_spec(
                    h@.skip(i + 1),
                    n@,
                )));
            }
            r.push(h[i]);
            i = i + 1;
        }
    }
    proof {
        assert(h@.skip(hl as int) =~= Seq::<char>::empty());
        assert(r@ + Seq::<char>::empty() =~= r@);
    }
    r
}

} // verus!
