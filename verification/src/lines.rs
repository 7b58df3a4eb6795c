use vstd::prelude::*;

verus! {

// ---------------------------------------------------------------------------
// Splitting text into lines, the way `str::lines` does: a line ends at a
// newline, a carriage return just before that newline is dropped, and a
// final newline does not start another (empty) line.

/// The index of the first `nl` at or after `i`, or the length.
pub open spec fn next_nl<T>(s: Seq<T>, i: int, nl: T) -> int
    decreases s.len() - i,
{
    if i < 0 || i >= s.len() {
        s.len() as int
    } else if s[i] == nl {
        i
    } else {
        next_nl(s, i + 1, nl)
    }
}

/// The `n`-th line of `s` from index `start`, without its line ending.
pub open spec fn line_at<T>(s: Seq<T>, start: int, n: nat, nl: T, cr: T) -> Option<Seq<T>>
    decreases s.len() - start,
{
    if start < 0 || start >= s.len() {
        None
    } else {
        let e = next_nl(s, start, nl);
        if n == 0 {
            let seg = s.subrange(start, e);
            if e < s.len() && seg.len() > 0 && seg.last() == cr {
                Some(seg.drop_last())
            } else {
                Some(seg)
            }
        } else if start <= e < s.len() {
            line_at(s, e + 1, (n - 1) as nat, nl, cr)
        } else {
            None
        }
    }
}

pub proof fn lemma_next_nl<T>(s: Seq<T>, i: int, nl: T)
    requires
        0 <= i <= s.len(),
    ensures
        i <= next_nl(s, i, nl) <= s.len(),
        next_nl(s, i, nl) < s.len() ==> s[next_nl(s, i, nl)] == nl,
        forall|k: int| i <= k < next_nl(s, i, nl) ==> s[k] != nl,
    decreases s.len() - i,
{
    if i < s.len() && s[i] != nl {
        lemma_next_nl(s, i + 1, nl);
    }
}

/// The `n`-th line of a byte string (as `str::lines().nth(n)` on its text).
pub fn nth_line_bytes(s: &[u8], n: usize) -> (r: Option<(usize, usize)>)
    ensures
        match r {
            Some((a, b)) => a <= b <= s@.len() && line_at(s@, 0, n as nat, 10u8, 13u8) == Some(s@.subrange(a as int, b as int)),
            None => line_at(s@, 0, n as nat, 10u8, 13u8) is None,
        },
{
    let len = s.len();
    let mut start: usize = 0;
    let mut k: usize = n;
    loop
        invariant
            start <= len,
            len == s@.len(),
            k <= n,
            line_at(s@, 0, n as nat, 10u8, 13u8) == line_at(s@, start as int, k as nat, 10u8, 13u8),
        decreases len - start,
    {
        if start >= len {
            return None;
        }
        let mut e = start;
        while e < len && s[e] != 10u8
            invariant
                start <= e <= len,
                len == s@.len(),
                next_nl(s@, start as int, 10u8) == next_nl(s@, e as int, 10u8),
            decreases len - e,
        {
            e = e + 1;
        }
        proof {
            lemma_next_nl(s@, start as int, 10u8);
        }
        if k == 0 {
            if e < len && e > start && s[e - 1] == 13u8 {
                return Some((start, e - 1));
            } else {
                return Some((start, e));
            }
        }
        if e >= len {
            assert(line_at(s@, (e + 1) as int, (k - 1) as nat, 10u8, 13u8) is None);
            return None;
        }
        start = e + 1;
        k = k - 1;
    }
}

/// The `n`-th line of a text (as `str::lines().nth(n)`).
pub fn nth_line_chars(s: &Vec<char>, n: usize) -> (r: Option<(usize, usize)>)
    ensures
        match r {
            Some((a, b)) => a <= b <= s@.len() && line_at(s@, 0, n as nat, '\n', '\r') == Some(s@.subrange(a as int, b as int)),
            None => line_at(s@, 0, n as nat, '\n', '\r') is None,
        },
{
    let len = s.len();
    let mut start: usize = 0;
    let mut k: usize = n;
    loop
        invariant
            start <= len,
            len == s@.len(),
            k <= n,
            line_at(s@, 0, n as nat, '\n', '\r') == line_at(s@, start as int, k as nat, '\n', '\r'),
        decreases len - start,
    {
        if start >= len {
            return None;
        }
        let mut e = start;
        while e < len && s[e] != '\n'
            invariant
                start <= e <= len,
                len == s@.len(),
                next_nl(s@, start as int, '\n') == next_nl(s@, e as int, '\n'),
            decreases len - e,
        {
            e = e + 1;
        }
        proof {
            lemma_next_nl(s@, start as int, '\n');
        }
        if k == 0 {
            if e < len && e > start && s[e - 1] == '\r' {
                return Some((start, e - 1));
            } else {
                return Some((start, e));
            }
        }
        if e >= len {
            assert(line_at(s@, (e + 1) as int, (k - 1) as nat, '\n', '\r') is None);
            return None;
        }
        start = e + 1;
        k = k - 1;
    }
}

} // verus!
