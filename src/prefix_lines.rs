//! Prefixing each line of a text, for showing captured process output.

use vstd::prelude::*;

use crate::text::{chars_of, find, lemma_find_char, line_end, lines_from, push_range, push_str};

verus! {

/// The lines of `s` as `str::lines` gives them: split at line feeds, a final
/// empty line dropped, and one carriage return at the end of each line removed.
pub open spec fn text_lines(s: Seq<char>) -> Seq<Seq<char>> {
    let ps = lines_from(s, 0);
    let ps = if ps.len() > 0 && ps.last().len() == 0 {
        ps.drop_last()
    } else {
        ps
    };
    ps.map_values(|l: Seq<char>| without_cr(l))
}

/// `l` without one carriage return at its end.
pub open spec fn without_cr(l: Seq<char>) -> Seq<char> {
    if l.len() > 0 && l.last() == '\r' {
        l.drop_last()
    } else {
        l
    }
}

/// Each of `ls` after `prefix`, joined by line feeds.
pub open spec fn prefixed(ls: Seq<Seq<char>>, prefix: Seq<char>) -> Seq<char>
    decreases ls.len(),
{
    if ls.len() == 0 {
        Seq::empty()
    } else if ls.len() == 1 {
        prefix + ls[0]
    } else {
        prefixed(ls.drop_last(), prefix) + seq!['\n'] + prefix + ls.last()
    }
}

/// Puts a prefix before each line of a text.
pub trait PrefixLines: View<V = Seq<char>> {
    /// Each line of the text after `prefix`, joined by line feeds.
    fn prefix_lines(&self, prefix: &str) -> (r: String)
        ensures
            r@ == prefixed(text_lines(self@), prefix@),
    ;
}

impl PrefixLines for str {
    fn prefix_lines(&self, prefix: &str) -> (r: String) {
        prefix_lines_of(self, prefix)
    }
}

/// Each line of `s` after `prefix`, joined by line feeds.
pub fn prefix_lines_of(s: &str, prefix: &str) -> (r: String)
    ensures
        r@ == prefixed(text_lines(s@), prefix@),
{
    let chars = chars_of(s);
    let v = chars.as_slice();
    let len = v.len();
    let ghost all = lines_from(v@, 0);
    let ghost kept = if all.len() > 0 && all.last().len() == 0 {
        all.drop_last()
    } else {
        all
    };
    let mut out = String::new();
    let mut i: usize = 0;
    let mut n: usize = 0;
    let ghost mut done: Seq<Seq<char>> = Seq::empty();
    loop
        invariant
            v@ == s@,
            len == v@.len(),
            i <= v@.len(),
            all == lines_from(v@, 0),
            all == done + lines_from(v@, i as int),
            kept == (if all.len() > 0 && all.last().len() == 0 {
                all.drop_last()
            } else {
                all
            }),
            n == done.len(),
            n <= i,
            done.len() <= kept.len(),
            out@ == prefixed(done.map_values(|l: Seq<char>| without_cr(l)), prefix@),
        decreases v@.len() - i,
    {
        proof {
            lemma_find_char(v@, i as int, '\n');
        }
        let found = find(v, i, '\n');
        let e = match found {
            Some(p) => p,
            None => len,
        };
        assert(e == line_end(v@, i as int));
        let ghost rest = if e < v@.len() {
            lines_from(v@, e + 1)
        } else {
            Seq::empty()
        };
        let ghost l = v@.subrange(i as int, e as int);
        assert(lines_from(v@, i as int) == seq![l] + rest);
        assert(all =~= done.push(l) + rest);
        if e >= len && e == i {
            // the final piece is empty: it is no line
            assert(all =~= done.push(l));
            assert(kept =~= done);
            return out;
        }
        let end = if e > i && v[e - 1] == '\r' {
            e - 1
        } else {
            e
        };
        if n > 0 {
            push_str(&mut out, "\n");
        }
        push_str(&mut out, prefix);
        push_range(&mut out, v, i, end);
        proof {
            let next = done.push(l);
            let ms = done.map_values(|l: Seq<char>| without_cr(l));
            let mn = next.map_values(|l: Seq<char>| without_cr(l));
            assert(mn.drop_last() =~= ms);
            assert(v@.subrange(i as int, end as int) =~= without_cr(l));
            reveal_strlit("\n");
            if n > 0 {
                assert("\n"@ =~= seq!['\n']);
            } else {
                assert(ms =~= Seq::<Seq<char>>::empty());
            }
            if e < v@.len() {
                assert(rest.len() > 0);
            }
            done = next;
        }
        n = n + 1;
        if e >= len {
            assert(all =~= done);
            return out;
        }
        i = e + 1;
    }
}

} // verus!
