//! The screen ratio of a slide deck, written `W:H`.
use vstd::prelude::*;
use vstd::std_specs::iter::IteratorSpec;

verus! {

/// Whether `c` is an ASCII decimal digit.
pub open spec fn is_digit(c: char) -> bool {
    '0' <= c && c <= '9'
}

/// The number that the decimal digits `s` denote.
pub open spec fn digits_value(s: Seq<char>) -> nat
    decreases s.len(),
{
    if s.len() == 0 {
        0
    } else {
        digits_value(s.drop_last()) * 10 + (s.last() as nat - '0' as nat) as nat
    }
}

/// `s` without a leading `+`.
pub open spec fn unsigned_part(s: Seq<char>) -> Seq<char> {
    if s.len() > 0 && s[0] == '+' {
        s.drop_first()
    } else {
        s
    }
}

/// The `usize` that `s` denotes, as `str::parse::<usize>` reads it: an
/// optional `+`, then one or more decimal digits, with a value that fits.
pub open spec fn usize_of(s: Seq<char>) -> Option<nat> {
    let d = unsigned_part(s);
    if d.len() > 0 && (forall|i: int| 0 <= i < d.len() ==> is_digit(#[trigger] d[i]))
        && digits_value(d) <= usize::MAX {
        Some(digits_value(d))
    } else {
        None
    }
}

/// The position of the first `:` in `s`, if any.
pub open spec fn first_colon(s: Seq<char>) -> Option<nat>
    decreases s.len(),
{
    if s.len() == 0 {
        None
    } else if s[0] == ':' {
        Some(0)
    } else {
        match first_colon(s.drop_first()) {
            Some(i) => Some(i + 1),
            None => None,
        }
    }
}

/// The ratio that `s` denotes: two `usize` numbers either side of its first `:`.
pub open spec fn ratio_of(s: Seq<char>) -> Option<(nat, nat)> {
    match first_colon(s) {
        None => None,
        Some(i) => match (usize_of(s.take(i as int)), usize_of(s.skip(i + 1 as int))) {
            (Some(w), Some(h)) => Some((w, h)),
            _ => None,
        },
    }
}

/// The ratio to use for the slide deck.
pub struct SlideRatio {
    pub width: usize,
    pub height: usize,
}

proof fn lemma_digits_grow(s: Seq<char>, k: int)
    requires
        0 <= k <= s.len(),
        forall|i: int| 0 <= i < s.len() ==> is_digit(#[trigger] s[i]),
    ensures
        digits_value(s.take(k)) <= digits_value(s),
    decreases s.len() - k,
{
    if k < s.len() {
        lemma_digits_grow(s, k + 1);
        assert(s.take(k + 1).drop_last() =~= s.take(k));
    } else {
        assert(s.take(k) =~= s);
    }
}

/// The characters of `s`.
fn chars_of(s: &str) -> (r: Vec<char>)
    ensures
        r@ == s@,
{
    broadcast use vstd::string::axiom_spec_iter, vstd::string::next_postcondition;

    let mut chars = s.chars();
    let mut r: Vec<char> = Vec::new();
    let ghost mut k: int = 0;
    loop
        invariant
            0 <= k <= s@.len(),
            chars.remaining() == s@.skip(k),
            r@ == s@.take(k),
        ensures
            r@ == s@,
        decreases s@.len() - k,
    {
        match chars.next() {
            None => {
                assert(s@.skip(k).len() == 0);
                assert(s@.take(k) =~= s@);
                return r;
            },
            Some(c) => {
                assert(s@.skip(k)[0] == s@[k]);
                assert(s@.skip(k + 1) =~= s@.skip(k).drop_first());
                r.push(c);
                proof {
                    assert(s@.take(k + 1) =~= s@.take(k).push(c));
                    k = k + 1;
                }
            },
        }
    }
}

/// Reads `cs[lo..hi]` as `str::parse::<usize>` does.
fn parse_usize(cs: &Vec<char>, lo: usize, hi: usize) -> (r: Option<usize>)
    requires
        lo <= hi <= cs@.len(),
    ensures
        r is Some == usize_of(cs@.subrange(lo as int, hi as int)) is Some,
        r is Some ==> r->0 as nat == usize_of(cs@.subrange(lo as int, hi as int))->0,
{
    let ghost s = cs@.subrange(lo as int, hi as int);
    let start = if lo < hi && cs[lo] == '+' {
        lo + 1
    } else {
        lo
    };
    let ghost d = cs@.subrange(start as int, hi as int);
    assert(s.len() > 0 && s[0] == '+' ==> d =~= s.drop_first());
    assert(!(s.len() > 0 && s[0] == '+') ==> d =~= s);
    if start == hi {
        return None;
    }
    let mut value: usize = 0;
    let mut k: usize = start;
    while k < hi
        invariant
            start <= k <= hi <= cs@.len(),
            d == cs@.subrange(start as int, hi as int),
            s == cs@.subrange(lo as int, hi as int),
            d == unsigned_part(s),
            forall|i: int| start <= i < k ==> is_digit(#[trigger] cs@[i]),
            value as nat == digits_value(cs@.subrange(start as int, k as int)),
        decreases hi - k,
    {
        let c = cs[k];
        if !('0' <= c && c <= '9') {
            assert(d[k - start] == c);
            assert(!is_digit(d[k - start]));
            assert(usize_of(s) is None);
            return None;
        }
        let digit = (c as u32 - '0' as u32) as usize;
        assert(cs@.subrange(start as int, k + 1).drop_last() =~= cs@.subrange(start as int, k as int));
        assert(digit as nat == (c as nat - '0' as nat) as nat);
        if value > (usize::MAX - digit) / 10 {
            proof {
                let m = usize::MAX as int;
                assert(value as int * 10 + digit as int > m) by (nonlinear_arith)
                    requires
                        value as int > (m - digit as int) / 10,
                        0 <= digit <= 9,
                        m > 9,
                ;
                assert(d.take(k + 1 - start) =~= cs@.subrange(start as int, k + 1));
                let pre = cs@.subrange(start as int, k + 1);
                assert(pre.last() == c);
                assert(digits_value(pre) == value as nat * 10 + digit as nat);
                if forall|i: int| 0 <= i < d.len() ==> is_digit(#[trigger] d[i]) {
                    lemma_digits_grow(d, k + 1 - start);
                }
                assert(usize_of(s) is None);
            }
            return None;
        }
        proof {
            let m = usize::MAX as int;
            assert(value as int * 10 + digit as int <= m) by (nonlinear_arith)
                requires
                    value as int <= (m - digit as int) / 10,
                    0 <= digit <= 9,
            ;
        }
        value = value * 10 + digit;
        k = k + 1;
    }
    assert(cs@.subrange(start as int, k as int) =~= d);
    Some(value)
}

proof fn lemma_first_colon(s: Seq<char>, k: int)
    requires
        0 <= k <= s.len(),
        forall|i: int| 0 <= i < k ==> s[i] != ':',
        k < s.len() ==> s[k] == ':',
    ensures
        first_colon(s) == (if k < s.len() {
            Some(k as nat)
        } else {
            None
        }),
    decreases k,
{
    if k > 0 {
        lemma_first_colon(s.drop_first(), k - 1);
    }
}

impl SlideRatio {
    /// Reads a ratio written `W:H`, two `usize` numbers either side of the
    /// first colon; `None` when `v` is not of that form.
    pub fn parse(v: &str) -> (r: Option<SlideRatio>)
        ensures
            r is Some == ratio_of(v@) is Some,
            r is Some ==> ratio_of(v@) == Some((r->0.width as nat, r->0.height as nat)),
    {
        let cs = chars_of(v);
        let n = cs.len();
        let mut k: usize = 0;
        while k < n && cs[k] != ':'
            invariant
                k <= n == cs@.len(),
                forall|i: int| 0 <= i < k ==> cs@[i] != ':',
            decreases n - k,
        {
            k = k + 1;
        }
        proof {
            lemma_first_colon(cs@, k as int);
        }
        if k == n {
            return None;
        }
        assert(cs@.take(k as int) =~= cs@.subrange(0, k as int));
        assert(cs@.skip(k + 1) =~= cs@.subrange(k + 1, n as int));
        let width = parse_usize(&cs, 0, k);
        let height = parse_usize(&cs, k + 1, n);
        match (width, height) {
            (Some(width), Some(height)) => Some(SlideRatio { width, height }),
            _ => None,
        }
    }
}

} // verus!
