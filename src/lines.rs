//! Splitting text into lines.
use vstd::prelude::*;
use vstd::std_specs::iter::IteratorSpec;

verus! {

/// `l` without one trailing carriage return, if it has one.
pub open spec fn strip_cr(l: Seq<char>) -> Seq<char> {
    if l.len() > 0 && l.last() == '\r' {
        l.drop_last()
    } else {
        l
    }
}

/// The lines of `s` that a newline has ended, and the line still open at its end.
pub open spec fn split_prefix(s: Seq<char>) -> (Seq<Seq<char>>, Seq<char>)
    decreases s.len(),
{
    if s.len() == 0 {
        (Seq::empty(), Seq::empty())
    } else {
        let (done, cur) = split_prefix(s.drop_last());
        if s.last() == '\n' {
            (done.push(strip_cr(cur)), Seq::empty())
        } else {
            (done, cur.push(s.last()))
        }
    }
}

/// The lines of `s`: split at each `\n`, with a `\r` before the `\n` removed;
/// text after the last newline is a final line when it is not empty.
pub open spec fn lines_of(s: Seq<char>) -> Seq<Seq<char>> {
    let (done, cur) = split_prefix(s);
    if cur.len() > 0 {
        done.push(cur)
    } else {
        done
    }
}

/// The character views of a vector of strings.
pub open spec fn views(v: Seq<String>) -> Seq<Seq<char>> {
    v.map_values(|l: String| l@)
}

/// Relies on String::push: appends one character.
#[verifier::external_body]
fn push_char(s: &mut String, c: char)
    ensures
        final(s)@ == old(s)@.push(c),
{
    s.push(c)
}

/// Splits `text` into its lines, as `str::lines` does.
pub fn split_lines(text: &str) -> (r: Vec<String>)
    ensures
        views(r@) == lines_of(text@),
{
    broadcast use vstd::string::axiom_spec_iter, vstd::string::next_postcondition;

    let mut chars = text.chars();
    let mut done: Vec<String> = Vec::new();
    let mut cur = String::new();
    let mut pending_cr = false;
    let ghost mut k: int = 0;
    loop
        invariant
            0 <= k <= text@.len(),
            chars.remaining() == text@.skip(k),
            split_prefix(text@.take(k)).0 == views(done@),
            split_prefix(text@.take(k)).1 == if pending_cr {
                cur@.push('\r')
            } else {
                cur@
            },
            !pending_cr ==> cur@.len() == 0 || cur@.last() != '\r',
        ensures
            split_prefix(text@).0 == views(done@),
            split_prefix(text@).1 == if pending_cr {
                cur@.push('\r')
            } else {
                cur@
            },
        decreases text@.len() - k,
    {
        let ghost pre = text@.take(k);
        match chars.next() {
            None => {
                assert(text@.skip(k).len() == 0);
                assert(text@.take(k) =~= text@);
                break;
            },
            Some(c) => {
                proof {
                    assert(text@.take(k + 1).drop_last() =~= pre);
                    assert(text@.take(k + 1).last() == c);
                    assert(text@.skip(k + 1) =~= text@.skip(k).drop_first());
                    k = k + 1;
                }
                if c == '\n' {
                    let ghost old_done = done@;
                    let line = cur;
                    cur = String::new();
                    pending_cr = false;
                    done.push(line);
                    proof {
                        assert(strip_cr(split_prefix(pre).1) == line@);
                        assert(views(done@) =~= views(old_done).push(line@));
                    }
                } else {
                    if pending_cr {
                        push_char(&mut cur, '\r');
                    }
                    if c == '\r' {
                        pending_cr = true;
                    } else {
                        pending_cr = false;
                        push_char(&mut cur, c);
                    }
                }
            },
        }
    }
    if pending_cr {
        push_char(&mut cur, '\r');
    }
    if !cur.as_str().is_empty() {
        done.push(cur);
    }
    proof {
        assert(split_prefix(text@).1 == cur@);
        assert(views(done@) =~= lines_of(text@));
    }
    done
}

} // verus!
