//! Command strings, split into words at ASCII whitespace. There is no quoting:
//! a quote is an ordinary character, and an argument cannot hold a space.
use vstd::prelude::*;
use crate::staged::views;

verus! {

/// The characters that `char::is_ascii_whitespace` accepts.
pub open spec fn is_ascii_space(c: char) -> bool {
    c == ' ' || c == '\t' || c == '\n' || c == '\x0C' || c == '\r'
}

/// The words of `s`, when `cur` holds the word being read so far.
pub open spec fn words_after(s: Seq<char>, cur: Seq<char>) -> Seq<Seq<char>>
    decreases s.len(),
{
    let done = if cur.len() == 0 {
        Seq::empty()
    } else {
        seq![cur]
    };
    if s.len() == 0 {
        done
    } else if is_ascii_space(s[0]) {
        done + words_after(s.drop_first(), Seq::empty())
    } else {
        words_after(s.drop_first(), cur.push(s[0]))
    }
}

/// The maximal runs of characters other than ASCII whitespace, in order.
pub open spec fn words(s: Seq<char>) -> Seq<Seq<char>> {
    words_after(s, Seq::empty())
}

/// Whether the character is ASCII whitespace.
fn is_space(c: char) -> (r: bool)
    ensures
        r == is_ascii_space(c),
{
    c == ' ' || c == '\t' || c == '\n' || c == '\x0C' || c == '\r'
}

/// The words of a command: the program first, then its arguments.
pub fn split_command(command: &str) -> (r: Vec<String>)
    ensures
        views(r@) == words(command@),
{
    let n = command.unicode_len();
    let ghost s = command@;
    let mut out: Vec<String> = Vec::new();
    let mut start: usize = 0;
    let mut i: usize = 0;
    assert(s.skip(0) =~= s);
    assert(s.subrange(0, 0) =~= Seq::<char>::empty());
    assert(views(out@) + words(s) =~= words(s));
    while i < n
        invariant
            n == s.len(),
            s == command@,
            start <= i <= n,
            views(out@) + words_after(s.skip(i as int), s.subrange(start as int, i as int)) == words(s),
        decreases n - i,
    {
        let c = command.get_char(i);
        let ghost cur = s.subrange(start as int, i as int);
        let ghost rest = s.skip(i as int);
        assert(rest.drop_first() =~= s.skip(i + 1));
        assert(rest[0] == c);
        if is_space(c) {
            let ghost done = if cur.len() == 0 {
                Seq::<Seq<char>>::empty()
            } else {
                seq![cur]
            };
            assert(words_after(rest, cur) == done + words_after(s.skip(i + 1), Seq::empty()));
            assert(s.subrange(i + 1, i + 1) =~= Seq::<char>::empty());
            let ghost out0 = views(out@);
            assert(out0 + (done + words_after(s.skip(i + 1), Seq::empty())) =~= (out0 + done)
                + words_after(s.skip(i + 1), Seq::empty()));
            if start < i {
                let w = command.substring_char(start, i).to_owned();
                let ghost before = out@;
                out.push(w);
                assert(views(out@) =~= views(before) + seq![cur]);
            } else {
                assert(cur.len() == 0);
                assert(out0 + done =~= out0);
            }
            i += 1;
            start = i;
        } else {
            assert(cur.push(c) =~= s.subrange(start as int, i + 1));
            i += 1;
        }
    }
    let ghost cur = s.subrange(start as int, i as int);
    assert(s.skip(i as int).len() == 0);
    if start < i {
        let w = command.substring_char(start, i).to_owned();
        let ghost before = out@;
        out.push(w);
        assert(views(out@) =~= views(before) + seq![cur]);
    } else {
        assert(cur.len() == 0);
    }
    assert(views(out@) =~= words(s));
    out
}

} // verus!
