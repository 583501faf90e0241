//! Plain-text groundwork for the bulletin: whitespace splitting,
//! trimming, and line separation.
//!
//! Whitespace here means the ASCII blanks a bulletin can contain:
//! space, tab, carriage return, line feed, vertical tab and form feed.

use vstd::prelude::*;

verus! {

pub open spec fn is_space(c: char) -> bool {
    c == ' ' || c == '\t' || c == '\n' || c == '\r' || c == '\u{b}' || c == '\u{c}'
}

fn is_space_char(c: char) -> (r: bool)
    ensures
        r == is_space(c),
{
    c == ' ' || c == '\t' || c == '\n' || c == '\r' || c == '\u{b}' || c == '\u{c}'
}

/// The views of a vector of strings.
pub open spec fn views(ts: Seq<String>) -> Seq<Seq<char>> {
    ts.map_values(|t: String| t@)
}

/// Whitespace-splitting, read left to right with `cur` the token
/// gathered so far.
pub open spec fn tokens_acc(s: Seq<char>, cur: Seq<char>) -> Seq<Seq<char>>
    decreases s.len(),
{
    if s.len() == 0 {
        if cur.len() == 0 {
            Seq::<Seq<char>>::empty()
        } else {
            seq![cur]
        }
    } else if is_space(s[0]) {
        if cur.len() == 0 {
            tokens_acc(s.skip(1), Seq::<char>::empty())
        } else {
            seq![cur] + tokens_acc(s.skip(1), Seq::<char>::empty())
        }
    } else {
        tokens_acc(s.skip(1), cur.push(s[0]))
    }
}

/// The whitespace-delimited tokens of `s`, in order.
pub open spec fn tokens_of(s: Seq<char>) -> Seq<Seq<char>> {
    tokens_acc(s, Seq::<char>::empty())
}

/// Splits a line into its whitespace-delimited tokens.
pub fn split_tokens(line: &str) -> (r: Vec<String>)
    ensures
        views(r@) == tokens_of(line@),
{
    let n = line.unicode_len();
    let mut out: Vec<String> = Vec::new();
    let mut i: usize = 0;
    let mut start: usize = 0;
    let mut in_tok = false;
    proof {
        assert(line@.skip(0) =~= line@);
        assert(views(out@) =~= Seq::<Seq<char>>::empty());
    }
    while i < n
        invariant
            i <= n,
            n == line@.len(),
            in_tok ==> start < i,
            tokens_of(line@) == views(out@) + tokens_acc(
                line@.skip(i as int),
                if in_tok {
                    line@.subrange(start as int, i as int)
                } else {
                    Seq::<char>::empty()
                },
            ),
        decreases n - i,
    {
        let ghost cur = if in_tok {
            line@.subrange(start as int, i as int)
        } else {
            Seq::<char>::empty()
        };
        let ghost suf = line@.skip(i as int);
        proof {
            assert(suf[0] == line@[i as int]);
            assert(suf.skip(1) =~= line@.skip(i + 1int));
        }
        let c = line.get_char(i);
        if is_space_char(c) {
            if in_tok {
                let t = line.substring_char(start, i).to_owned();
                proof {
                    assert(views(out@.push(t)) =~= views(out@) + seq![cur]);
                    assert((views(out@) + seq![cur]) + tokens_acc(
                        line@.skip(i + 1int),
                        Seq::<char>::empty(),
                    ) =~= views(out@) + (seq![cur] + tokens_acc(
                        line@.skip(i + 1int),
                        Seq::<char>::empty(),
                    )));
                }
                out.push(t);
                in_tok = false;
            }
        } else {
            if !in_tok {
                in_tok = true;
                start = i;
            }
            proof {
                assert(line@.subrange(start as int, i + 1int) =~= cur.push(line@[i as int]));
            }
        }
        i += 1;
    }
    if in_tok {
        let ghost cur = line@.subrange(start as int, i as int);
        proof {
            assert(line@.skip(i as int).len() == 0);
            assert(tokens_acc(line@.skip(i as int), cur) =~= seq![cur]);
        }
        let t = line.substring_char(start, n).to_owned();
        proof {
            assert(views(out@.push(t)) =~= views(out@) + seq![cur]);
        }
        out.push(t);
    } else {
        proof {
            assert(line@.skip(i as int).len() == 0);
            assert(views(out@) + tokens_acc(line@.skip(i as int), Seq::<char>::empty())
                =~= views(out@));
        }
    }
    out
}

/// `s` without leading whitespace.
pub open spec fn trim_front(s: Seq<char>) -> Seq<char>
    decreases s.len(),
{
    if s.len() > 0 && is_space(s[0]) {
        trim_front(s.skip(1))
    } else {
        s
    }
}

/// `s` without trailing whitespace.
pub open spec fn trim_back(s: Seq<char>) -> Seq<char>
    decreases s.len(),
{
    if s.len() > 0 && is_space(s.last()) {
        trim_back(s.drop_last())
    } else {
        s
    }
}

pub open spec fn trimmed(s: Seq<char>) -> Seq<char> {
    trim_back(trim_front(s))
}

proof fn lemma_trim_front_at(s: Seq<char>, a: int)
    requires
        0 <= a <= s.len(),
        forall|j: int| 0 <= j < a ==> is_space(s[j]),
        a == s.len() || !is_space(s[a]),
    ensures
        trim_front(s) == s.skip(a),
    decreases a,
{
    if a == 0 {
        assert(s.skip(0) =~= s);
    } else {
        let t = s.skip(1);
        assert(forall|j: int| 0 <= j < a - 1 ==> t[j] == s[j + 1]);
        lemma_trim_front_at(t, a - 1);
        assert(t.skip(a - 1) =~= s.skip(a));
    }
}

proof fn lemma_trim_back_at(s: Seq<char>, b: int)
    requires
        0 <= b <= s.len(),
        forall|j: int| b <= j < s.len() ==> is_space(s[j]),
        b == 0 || !is_space(s[b - 1]),
    ensures
        trim_back(s) == s.take(b),
    decreases s.len(),
{
    if b == s.len() {
        if s.len() > 0 && is_space(s.last()) {
            lemma_trim_back_at(s.drop_last(), b - 1);
            assert(s.drop_last().take(b - 1) =~= s.take(b - 1));
            assert(b - 1 == s.drop_last().len());
        }
        assert(s.take(b) =~= if s.len() > 0 && is_space(s.last()) {
            s.take(b)
        } else {
            s
        });
    } else {
        assert(is_space(s.last()));
        let t = s.drop_last();
        assert(forall|j: int| b <= j < t.len() ==> t[j] == s[j]);
        lemma_trim_back_at(t, b);
        assert(t.take(b) =~= s.take(b));
    }
}

/// Removes leading and trailing whitespace.
pub fn trim(s: &str) -> (r: String)
    ensures
        r@ == trimmed(s@),
{
    let n = s.unicode_len();
    let mut a: usize = 0;
    while a < n && is_space_char(s.get_char(a))
        invariant
            a <= n,
            n == s@.len(),
            forall|j: int| 0 <= j < a ==> is_space(s@[j]),
        decreases n - a,
    {
        a += 1;
    }
    proof {
        lemma_trim_front_at(s@, a as int);
    }
    let mut b: usize = n;
    while b > a && is_space_char(s.get_char(b - 1))
        invariant
            a <= b <= n,
            n == s@.len(),
            forall|j: int| b <= j < n ==> is_space(s@[j]),
        decreases b,
    {
        b -= 1;
    }
    let ghost u = s@.skip(a as int);
    proof {
        assert(forall|j: int| 0 <= j < u.len() ==> u[j] == s@[a + j]);
        lemma_trim_back_at(u, b - a);
        assert(u.take(b - a) =~= s@.subrange(a as int, b as int));
    }
    s.substring_char(a, b).to_owned()
}

/// Index of the first line feed in `s` at or after `i`, or `s.len()`.
pub open spec fn line_break_pos(s: Seq<char>, i: int) -> int
    decreases s.len() - i,
    when 0 <= i <= s.len()
{
    if i >= s.len() {
        s.len() as int
    } else if s[i] == '\n' {
        i
    } else {
        line_break_pos(s, i + 1)
    }
}

proof fn lemma_line_break_at(s: Seq<char>, i: int, d: int)
    requires
        0 <= i <= d <= s.len(),
        forall|j: int| i <= j < d ==> s[j] != '\n',
        d == s.len() || s[d] == '\n',
    ensures
        line_break_pos(s, i) == d,
    decreases d - i,
{
    if i < d {
        lemma_line_break_at(s, i + 1, d);
    }
}

/// A line with its final carriage return, if any, removed.
pub open spec fn strip_cr(l: Seq<char>) -> Seq<char> {
    if l.len() > 0 && l.last() == '\r' {
        l.drop_last()
    } else {
        l
    }
}

/// The lines of `s`: pieces between line feeds, each stripped of a
/// final carriage return.  Empty text has no lines.
pub open spec fn split_lines(s: Seq<char>) -> Seq<Seq<char>>
    decreases s.len(),
{
    if s.len() == 0 {
        Seq::<Seq<char>>::empty()
    } else {
        let p = line_break_pos(s, 0);
        if 0 <= p < s.len() {
            seq![strip_cr(s.take(p))] + split_lines(s.skip(p + 1))
        } else {
            seq![strip_cr(s)]
        }
    }
}

/// Splits text into lines, as `split_lines` describes.
pub fn lines_of(text: &str) -> (r: Vec<String>)
    ensures
        views(r@) == split_lines(text@),
{
    let n = text.unicode_len();
    let mut out: Vec<String> = Vec::new();
    let mut pos: usize = 0;
    proof {
        assert(text@.skip(0) =~= text@);
        assert(views(out@) =~= Seq::<Seq<char>>::empty());
    }
    while pos < n
        invariant
            pos <= n,
            n == text@.len(),
            split_lines(text@) == views(out@) + split_lines(text@.skip(pos as int)),
        decreases n - pos,
    {
        let ghost suf = text@.skip(pos as int);
        let mut q: usize = pos;
        while q < n && text.get_char(q) != '\n'
            invariant
                pos <= q <= n,
                n == text@.len(),
                forall|j: int| pos <= j < q ==> text@[j] != '\n',
            decreases n - q,
        {
            q += 1;
        }
        proof {
            assert(forall|j: int| 0 <= j < suf.len() ==> suf[j] == text@[pos + j]);
            lemma_line_break_at(suf, 0, q - pos);
        }
        // The raw line, before the carriage-return strip.
        let mut stop = q;
        if q > pos && text.get_char(q - 1) == '\r' {
            stop = q - 1;
        }
        let t = text.substring_char(pos, stop).to_owned();
        proof {
            let p = q - pos;
            if p < suf.len() {
                assert(suf.take(p) =~= text@.subrange(pos as int, q as int));
                assert(suf.skip(p + 1) =~= text@.skip(q + 1int));
            } else {
                assert(suf =~= text@.subrange(pos as int, q as int));
            }
            if q > pos && text@[q - 1int] == '\r' {
                assert(text@.subrange(pos as int, q as int).last() == text@[q - 1int]);
                assert(text@.subrange(pos as int, q as int).drop_last() =~= text@.subrange(
                    pos as int,
                    stop as int,
                ));
            }
            assert(t@ == strip_cr(text@.subrange(pos as int, q as int)));
            assert(views(out@.push(t)) =~= views(out@) + seq![t@]);
        }
        out.push(t);
        if q < n {
            proof {
                assert((views(out@.drop_last()) + seq![t@]) + split_lines(text@.skip(q + 1int))
                    =~= views(out@.drop_last()) + (seq![t@] + split_lines(text@.skip(q + 1int))));
            }
            pos = q + 1;
        } else {
            proof {
                assert(split_lines(text@.skip(n as int)) =~= Seq::<Seq<char>>::empty());
                assert(views(out@) + Seq::<Seq<char>>::empty() =~= views(out@));
                assert(text@.skip(n as int).len() == 0);
            }
            pos = n;
        }
    }
    proof {
        assert(text@.skip(pos as int).len() == 0);
        assert(views(out@) + split_lines(text@.skip(pos as int)) =~= views(out@));
    }
    out
}

/// Whether a line is the opening `<pre>` tag, once trimmed.
pub open spec fn pre_open(l: Seq<char>) -> bool {
    trimmed(l) == seq!['<', 'p', 'r', 'e', '>']
}

/// Whether a line is the closing `</pre>` tag, once trimmed.
pub open spec fn pre_close(l: Seq<char>) -> bool {
    trimmed(l) == seq!['<', '/', 'p', 'r', 'e', '>']
}

/// Index of the first line satisfying `pre_open` at or after `i`, or
/// `ls.len()`.
pub open spec fn pre_open_pos(ls: Seq<Seq<char>>, i: int) -> int
    decreases ls.len() - i,
    when 0 <= i <= ls.len()
{
    if i >= ls.len() {
        ls.len() as int
    } else if pre_open(ls[i]) {
        i
    } else {
        pre_open_pos(ls, i + 1)
    }
}

/// Index of the first line satisfying `pre_close` at or after `i`, or
/// `ls.len()`.
pub open spec fn pre_close_pos(ls: Seq<Seq<char>>, i: int) -> int
    decreases ls.len() - i,
    when 0 <= i <= ls.len()
{
    if i >= ls.len() {
        ls.len() as int
    } else if pre_close(ls[i]) {
        i
    } else {
        pre_close_pos(ls, i + 1)
    }
}

/// The lines strictly between the first `<pre>` line and the next
/// `</pre>` line (or the end); none when no `<pre>` line exists.
pub open spec fn pre_block(ls: Seq<Seq<char>>) -> Seq<Seq<char>> {
    let o = pre_open_pos(ls, 0);
    if o >= ls.len() {
        Seq::<Seq<char>>::empty()
    } else {
        ls.subrange(o + 1, pre_close_pos(ls, o + 1))
    }
}

/// Lines joined back into text, each line given a trailing line feed.
pub open spec fn joined(ls: Seq<Seq<char>>) -> Seq<char>
    decreases ls.len(),
{
    if ls.len() == 0 {
        Seq::<char>::empty()
    } else {
        joined(ls.drop_last()) + ls.last() + seq!['\n']
    }
}

proof fn lemma_pre_open_pos_at(ls: Seq<Seq<char>>, i: int, d: int)
    requires
        0 <= i <= d <= ls.len(),
        forall|j: int| i <= j < d ==> !pre_open(ls[j]),
        d == ls.len() || pre_open(ls[d]),
    ensures
        pre_open_pos(ls, i) == d,
    decreases d - i,
{
    if i < d {
        lemma_pre_open_pos_at(ls, i + 1, d);
    }
}

proof fn lemma_pre_close_pos_at(ls: Seq<Seq<char>>, i: int, d: int)
    requires
        0 <= i <= d <= ls.len(),
        forall|j: int| i <= j < d ==> !pre_close(ls[j]),
        d == ls.len() || pre_close(ls[d]),
    ensures
        pre_close_pos(ls, i) == d,
    decreases d - i,
{
    if i < d {
        lemma_pre_close_pos_at(ls, i + 1, d);
    }
}

fn is_pre_open_line(l: &str) -> (r: bool)
    ensures
        r == pre_open(l@),
{
    let t = trim(l);
    let r = t.as_str().unicode_len() == 5 && t.as_str().get_char(0) == '<' && t.as_str().get_char(
        1,
    ) == 'p' && t.as_str().get_char(2) == 'r' && t.as_str().get_char(3) == 'e'
        && t.as_str().get_char(4) == '>';
    proof {
        if r {
            assert(trimmed(l@) =~= seq!['<', 'p', 'r', 'e', '>']);
        }
        if pre_open(l@) {
            assert(trimmed(l@)[0] == '<');
            assert(trimmed(l@)[1] == 'p');
            assert(trimmed(l@)[2] == 'r');
            assert(trimmed(l@)[3] == 'e');
            assert(trimmed(l@)[4] == '>');
        }
    }
    r
}

fn is_pre_close_line(l: &str) -> (r: bool)
    ensures
        r == pre_close(l@),
{
    let t = trim(l);
    let r = t.as_str().unicode_len() == 6 && t.as_str().get_char(0) == '<' && t.as_str().get_char(
        1,
    ) == '/' && t.as_str().get_char(2) == 'p' && t.as_str().get_char(3) == 'r'
        && t.as_str().get_char(4) == 'e' && t.as_str().get_char(5) == '>';
    proof {
        if r {
            assert(trimmed(l@) =~= seq!['<', '/', 'p', 'r', 'e', '>']);
        }
        if pre_close(l@) {
            assert(trimmed(l@)[0] == '<');
            assert(trimmed(l@)[1] == '/');
            assert(trimmed(l@)[2] == 'p');
            assert(trimmed(l@)[3] == 'r');
            assert(trimmed(l@)[4] == 'e');
            assert(trimmed(l@)[5] == '>');
        }
    }
    r
}

/// The bulletin text inside a fetched page: the lines between the
/// first `<pre>` tag line and the matching `</pre>` tag line, joined
/// with a line feed after each line.
pub fn extract_quake_text(html: &str) -> (r: String)
    ensures
        r@ == joined(pre_block(split_lines(html@))),
{
    let lines = lines_of(html);
    let ghost ls = split_lines(html@);

    let mut o: usize = 0;
    while o < lines.len() && !is_pre_open_line(lines[o].as_str())
        invariant
            o <= lines@.len(),
            views(lines@) == ls,
            forall|j: int| 0 <= j < o ==> !pre_open(ls[j]),
        decreases lines@.len() - o,
    {
        o += 1;
    }
    proof {
        lemma_pre_open_pos_at(ls, 0, o as int);
    }
    let mut out = String::new();
    if o == lines.len() {
        proof {
            assert(joined(pre_block(ls)) =~= Seq::<char>::empty());
        }
        return out;
    }

    let mut i: usize = o + 1;
    proof {
        assert(ls.subrange(o + 1, o + 1int).len() == 0);
        assert(out@ =~= joined(ls.subrange(o + 1, o + 1int)));
    }
    while i < lines.len() && !is_pre_close_line(lines[i].as_str())
        invariant
            o + 1 <= i <= lines@.len(),
            views(lines@) == ls,
            o < ls.len(),
            forall|j: int| o + 1 <= j < i ==> !pre_close(ls[j]),
            out@ == joined(ls.subrange(o + 1, i as int)),
        decreases lines@.len() - i,
    {
        out.append(lines[i].as_str());
        out.append("\n");
        proof {
            reveal_strlit("\n");
            assert("\n"@ =~= seq!['\n']);
            let pre = ls.subrange(o + 1, i as int);
            let cur = ls.subrange(o + 1, i + 1int);
            assert(cur.drop_last() =~= pre);
            assert(cur.last() == ls[i as int]);
        }
        i += 1;
    }
    proof {
        lemma_pre_close_pos_at(ls, o + 1, i as int);
    }
    out
}

} // verus!
