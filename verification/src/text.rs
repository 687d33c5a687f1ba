//! Plain text: decimal numbers, lines without their `#` comments, and the
//! statements of an SQL script.
use vstd::prelude::*;

verus! {

/// The decimal digit `d` (0 to 9) as a character.
pub open spec fn digit_char(d: nat) -> char {
    (48 + d) as char
}

/// The decimal text of a natural number, without leading zeros.
pub open spec fn nat_text(n: nat) -> Seq<char>
    decreases n,
{
    if n < 10 {
        seq![digit_char(n)]
    } else {
        nat_text(n / 10) + seq![digit_char(n % 10)]
    }
}

/// The decimal text of an integer, with a minus sign when it is negative.
pub open spec fn int_text(n: int) -> Seq<char> {
    if n < 0 {
        seq!['-'] + nat_text((-n) as nat)
    } else {
        nat_text(n as nat)
    }
}

/// The characters of a string.
#[verifier::external_body]
pub(crate) fn chars_of(s: &str) -> (r: Vec<char>)
    ensures
        r@ == s@,
{
    s.chars().collect()
}

/// A string of the given characters.
#[verifier::external_body]
pub(crate) fn string_of(cs: &[char]) -> (r: String)
    ensures
        r@ == cs@,
{
    cs.iter().collect()
}

/// The decimal text of a `u64` (`ToString` on integers writes them in decimal).
#[verifier::external_body]
pub(crate) fn u64_text(v: u64) -> (r: String)
    ensures
        r@ == nat_text(v as nat),
{
    v.to_string()
}

/// The decimal text of an `i64`, with a minus sign when it is negative.
#[verifier::external_body]
pub(crate) fn i64_text(v: i64) -> (r: String)
    ensures
        r@ == int_text(v as int),
{
    v.to_string()
}

/// Whether `char::is_whitespace` holds: the Unicode `White_Space` characters.
pub open spec fn is_white(c: char) -> bool {
    let u = c as u32;
    (9 <= u <= 13) || u == 32 || u == 0x85 || u == 0xa0 || u == 0x1680 || (0x2000 <= u
        <= 0x200a) || u == 0x2028 || u == 0x2029 || u == 0x202f || u == 0x205f || u == 0x3000
}

/// `char::is_whitespace`.
pub fn is_whitespace(c: char) -> (r: bool)
    ensures
        r == is_white(c),
{
    let u = c as u32;
    (9 <= u && u <= 13) || u == 32 || u == 0x85 || u == 0xa0 || u == 0x1680 || (0x2000 <= u
        && u <= 0x200a) || u == 0x2028 || u == 0x2029 || u == 0x202f || u == 0x205f || u
        == 0x3000
}

/// `s` without its trailing whitespace (`str::trim_end`).
pub open spec fn trim_end(s: Seq<char>) -> Seq<char>
    decreases s.len(),
{
    if s.len() > 0 && is_white(s.last()) {
        trim_end(s.drop_last())
    } else {
        s
    }
}

/// The index of the first `c` in `s`, if any.
pub open spec fn find_char(s: Seq<char>, c: char) -> Option<nat>
    decreases s.len(),
{
    if s.len() == 0 {
        None
    } else if s[0] == c {
        Some(0)
    } else {
        match find_char(s.drop_first(), c) {
            Some(i) => Some(i + 1),
            None => None,
        }
    }
}

/// A line with its comment removed: the text before the first `#`, without
/// trailing whitespace; a line without `#` is kept as it is.
pub open spec fn uncomment_line(line: Seq<char>) -> Seq<char> {
    match find_char(line, '#') {
        Some(p) => trim_end(line.take(p as int)),
        None => line,
    }
}

/// A line that ended with a line feed, without a carriage return before it.
pub open spec fn strip_cr(line: Seq<char>) -> Seq<char> {
    if line.len() > 0 && line.last() == '\r' {
        line.drop_last()
    } else {
        line
    }
}

/// The lines of `s` (as `str::lines` splits them) with their comments removed,
/// those left empty dropped.
pub open spec fn kept_lines(s: Seq<char>) -> Seq<Seq<char>>
    decreases s.len(),
{
    match find_char(s, '\n') {
        Some(p) => {
            let l = uncomment_line(strip_cr(s.take(p as int)));
            let rest = if p < s.len() {
                kept_lines(s.skip((p + 1) as int))
            } else {
                Seq::empty()
            };
            if l.len() > 0 {
                seq![l] + rest
            } else {
                rest
            }
        },
        None => {
            let l = uncomment_line(s);
            if l.len() > 0 {
                seq![l]
            } else {
                Seq::empty()
            }
        },
    }
}

/// The text of `s` without its comments: the kept lines joined with line
/// feeds.
pub open spec fn uncommented(s: Seq<char>) -> Seq<char> {
    join_with(kept_lines(s), seq!['\n'])
}

/// Whether no character of `s` is `c`.
pub open spec fn has_no(s: Seq<char>, c: char) -> bool {
    forall|k: int| 0 <= k < s.len() ==> s[k] != c
}

/// Texts joined with `sep` between them.
pub open spec fn join_with(ls: Seq<Seq<char>>, sep: Seq<char>) -> Seq<char>
    decreases ls.len(),
{
    if ls.len() == 0 {
        Seq::empty()
    } else if ls.len() == 1 {
        ls[0]
    } else {
        join_with(ls.drop_last(), sep) + sep + ls.last()
    }
}

/// The pieces of `s` between the separators `c` (as `str::split` gives them,
/// empty pieces included).
pub open spec fn split_on(s: Seq<char>, c: char) -> Seq<Seq<char>>
    decreases s.len(),
{
    match find_char(s, c) {
        Some(p) => if p < s.len() {
            seq![s.take(p as int)] + split_on(s.skip((p + 1) as int), c)
        } else {
            seq![s]
        },
        None => seq![s],
    }
}

pub(crate) proof fn lemma_find_char_bound(s: Seq<char>, c: char)
    ensures
        find_char(s, c) matches Some(p) ==> p < s.len() && s[p as int] == c && forall|k: int|
            0 <= k < p ==> s[k] != c,
        find_char(s, c) is None ==> forall|k: int| 0 <= k < s.len() ==> s[k] != c,
    decreases s.len(),
{
    if s.len() > 0 {
        lemma_find_char_bound(s.drop_first(), c);
        if s[0] != c {
            if let Some(i) = find_char(s.drop_first(), c) {
                assert forall|k: int| 0 <= k < i + 1 implies s[k] != c by {
                    if k > 0 {
                        assert(s[k] == s.drop_first()[k - 1]);
                    }
                }
            } else {
                assert forall|k: int| 0 <= k < s.len() implies s[k] != c by {
                    if k > 0 {
                        assert(s[k] == s.drop_first()[k - 1]);
                    }
                }
            }
        }
    }
}

proof fn lemma_find_char_is(s: Seq<char>, c: char, p: nat)
    requires
        p < s.len(),
        s[p as int] == c,
        forall|k: int| 0 <= k < p ==> s[k] != c,
    ensures
        find_char(s, c) == Some(p),
    decreases p,
{
    if p > 0 {
        assert(s[0] != c);
        assert forall|k: int| 0 <= k < p - 1 implies s.drop_first()[k] != c by {
            assert(s.drop_first()[k] == s[k + 1]);
        }
        lemma_find_char_is(s.drop_first(), c, (p - 1) as nat);
    }
}

proof fn lemma_find_char_none(s: Seq<char>, c: char)
    requires
        forall|k: int| 0 <= k < s.len() ==> s[k] != c,
    ensures
        find_char(s, c) is None,
    decreases s.len(),
{
    if s.len() > 0 {
        assert forall|k: int| 0 <= k < s.len() - 1 implies s.drop_first()[k] != c by {
            assert(s.drop_first()[k] == s[k + 1]);
        }
        lemma_find_char_none(s.drop_first(), c);
    }
}

/// The index of the first `c` in `s` at or after `from`, or `s.len()`.
pub(crate) fn find_from(s: &Vec<char>, c: char, from: usize) -> (r: usize)
    requires
        from <= s.len(),
    ensures
        from <= r <= s.len(),
        r < s.len() ==> s@[r as int] == c,
        forall|k: int| from <= k < r ==> s@[k] != c,
        r < s.len() ==> find_char(s@.skip(from as int), c) == Some((r - from) as nat),
        r == s.len() ==> find_char(s@.skip(from as int), c) is None,
{
    let mut i = from;
    while i < s.len() && s[i] != c
        invariant
            from <= i <= s.len(),
            forall|k: int| from <= k < i ==> s@[k] != c,
        decreases s.len() - i,
    {
        i = i + 1;
    }
    proof {
        let t = s@.skip(from as int);
        if i < s.len() {
            assert forall|k: int| 0 <= k < i - from implies t[k] != c by {
                assert(t[k] == s@[from + k]);
            }
            lemma_find_char_is(t, c, (i - from) as nat);
        } else {
            assert forall|k: int| 0 <= k < t.len() implies t[k] != c by {
                assert(t[k] == s@[from + k]);
            }
            lemma_find_char_none(t, c);
        }
    }
    i
}

/// `s` without trailing whitespace.
pub(crate) fn trim_end_chars(s: Vec<char>) -> (r: Vec<char>)
    ensures
        r@ == trim_end(s@),
{
    let mut s = s;
    let ghost orig = s@;
    while s.len() > 0 && is_whitespace(s[s.len() - 1])
        invariant
            trim_end(s@) == trim_end(orig),
        decreases s.len(),
    {
        let ghost before = s@;
        s.pop();
        assert(s@ =~= before.drop_last());
    }
    s
}

/// The characters of `s` from `from` up to `to`.
pub(crate) fn sub_chars(s: &Vec<char>, from: usize, to: usize) -> (r: Vec<char>)
    requires
        from <= to <= s.len(),
    ensures
        r@ == s@.subrange(from as int, to as int),
{
    let mut r: Vec<char> = Vec::new();
    let mut i = from;
    while i < to
        invariant
            from <= i <= to <= s.len(),
            r@ == s@.subrange(from as int, i as int),
        decreases to - i,
    {
        r.push(s[i]);
        i = i + 1;
        assert(r@ =~= s@.subrange(from as int, i as int));
    }
    r
}

/// A line with its comment removed.
fn uncomment(line: Vec<char>) -> (r: Vec<char>)
    ensures
        r@ == uncomment_line(line@),
{
    let p = find_from(&line, '#', 0);
    assert(line@.skip(0) =~= line@);
    if p < line.len() {
        let head = sub_chars(&line, 0, p);
        assert(head@ =~= line@.take(p as int));
        trim_end_chars(head)
    } else {
        line
    }
}

/// Appends `b` to `a`.
fn append_chars(a: &mut Vec<char>, b: &Vec<char>)
    ensures
        final(a)@ == old(a)@ + b@,
{
    let mut i: usize = 0;
    while i < b.len()
        invariant
            i <= b.len(),
            a@ == old(a)@ + b@.take(i as int),
        decreases b.len() - i,
    {
        a.push(b[i]);
        i = i + 1;
        assert(a@ =~= old(a)@ + b@.take(i as int));
    }
    assert(b@.take(b.len() as int) =~= b@);
}

proof fn lemma_join_push(ls: Seq<Seq<char>>, l: Seq<char>, sep: Seq<char>)
    ensures
        join_with(ls.push(l), sep) == if ls.len() == 0 {
            l
        } else {
            join_with(ls, sep) + sep + l
        },
{
    assert(ls.push(l).drop_last() =~= ls);
}

/// The text of `input` without its `#` comments: each line cut at its first
/// `#` and stripped of the whitespace before it, lines left empty dropped, the
/// rest joined with line feeds.
pub fn remove_comment(input: &str) -> (r: String)
    ensures
        r@ == uncommented(input@),
{
    let s = chars_of(input);
    let ghost all = s@;
    let mut out: Vec<char> = Vec::new();
    let ghost mut kept: Seq<Seq<char>> = Seq::empty();
    let mut any_kept = false;
    let mut start: usize = 0;
    let mut done = false;
    assert(all.skip(0) =~= all);
    while !done
        invariant
            all == s@,
            start <= s.len(),
            out@ == join_with(kept, seq!['\n']),
            any_kept == (kept.len() > 0),
            !done ==> kept_lines(all) == kept + kept_lines(all.skip(start as int)),
            done ==> kept_lines(all) == kept,
        decreases s.len() - start + (if done { 0int } else { 1int }),
    {
        let ghost rest = all.skip(start as int);
        let p = find_from(&s, '\n', start);
        if p < s.len() {
            let mut line = sub_chars(&s, start, p);
            if line.len() > 0 && line[line.len() - 1] == '\r' {
                let ghost before = line@;
                line.pop();
                assert(line@ =~= before.drop_last());
            }
            assert(s@.subrange(start as int, p as int) =~= rest.take((p - start) as int));
            let l = uncomment(line);
            assert(rest.skip((p - start) + 1) =~= all.skip(p + 1));
            proof {
                lemma_find_char_bound(rest, '\n');
            }
            if l.len() > 0 {
                if any_kept {
                    out.push('\n');
                }
                any_kept = true;
                let ghost o = out@;
                append_chars(&mut out, &l);
                proof {
                    lemma_join_push(kept, l@, seq!['\n']);
                    assert(kept.len() > 0 ==> o == join_with(kept, seq!['\n']) + seq!['\n']);
                    assert(kept.len() == 0 ==> o =~= Seq::<char>::empty());
                    assert(seq![l@] + kept_lines(all.skip(p + 1)) =~= kept_lines(rest));
                    assert(kept + kept_lines(rest) =~= kept.push(l@) + kept_lines(
                        all.skip(p + 1),
                    ));
                    kept = kept.push(l@);
                }
            }
            start = p + 1;
        } else {
            let line = sub_chars(&s, start, s.len());
            assert(line@ =~= rest);
            let l = uncomment(line);
            if l.len() > 0 {
                if any_kept {
                    out.push('\n');
                }
                any_kept = true;
                let ghost o = out@;
                append_chars(&mut out, &l);
                proof {
                    lemma_join_push(kept, l@, seq!['\n']);
                    assert(kept.len() == 0 ==> o =~= Seq::<char>::empty());
                    kept = kept.push(l@);
                }
            } else {
                assert(kept + kept_lines(rest) =~= kept);
            }
            done = true;
        }
    }
    string_of(out.as_slice())
}

proof fn lemma_trim_end_prefix(s: Seq<char>)
    ensures
        trim_end(s).len() <= s.len(),
        forall|j: int| 0 <= j < trim_end(s).len() ==> #[trigger] trim_end(s)[j] == s[j],
    decreases s.len(),
{
    if s.len() > 0 && is_white(s.last()) {
        lemma_trim_end_prefix(s.drop_last());
    }
}

/// A line without its comment is a prefix of the line, and holds no `#`.
proof fn lemma_uncomment(line: Seq<char>)
    ensures
        uncomment_line(line).len() <= line.len(),
        forall|j: int|
            0 <= j < uncomment_line(line).len() ==> #[trigger] uncomment_line(line)[j] == line[j],
        has_no(uncomment_line(line), '#'),
{
    lemma_find_char_bound(line, '#');
    match find_char(line, '#') {
        Some(p) => {
            let t = line.take(p as int);
            lemma_trim_end_prefix(t);
        },
        None => {},
    }
}

/// The kept lines of a text are not empty and hold no line feed and no `#`;
/// a character that the text does not hold, none of them holds.
proof fn lemma_kept_shape(s: Seq<char>, c: char)
    ensures
        forall|i: int|
            0 <= i < kept_lines(s).len() ==> (#[trigger] kept_lines(s)[i]).len() > 0 && has_no(
                kept_lines(s)[i],
                '\n',
            ) && has_no(kept_lines(s)[i], '#') && (has_no(s, c) ==> has_no(kept_lines(s)[i], c)),
    decreases s.len(),
{
    lemma_find_char_bound(s, '\n');
    match find_char(s, '\n') {
        Some(p) => {
            let line = s.take(p as int);
            let l = uncomment_line(strip_cr(line));
            lemma_uncomment(strip_cr(line));
            let rest = s.skip((p + 1) as int);
            lemma_kept_shape(rest, c);
            assert(has_no(s, c) ==> has_no(rest, c)) by {
                if has_no(s, c) {
                    assert forall|k: int| 0 <= k < rest.len() implies rest[k] != c by {
                        assert(rest[k] == s[k + p + 1]);
                    }
                }
            }
            assert(has_no(l, '\n') && (has_no(s, c) ==> has_no(l, c))) by {
                assert forall|j: int| 0 <= j < l.len() implies l[j] == s[j] && l[j] != '\n' by {
                    assert(l[j] == strip_cr(line)[j]);
                }
            }
            if l.len() > 0 {
                assert(kept_lines(s) == seq![l] + kept_lines(rest));
                assert forall|i: int| 0 < i < kept_lines(s).len() implies kept_lines(s)[i]
                    == kept_lines(rest)[i - 1] by {}
            } else {
                assert(kept_lines(s) == kept_lines(rest));
            }
        },
        None => {
            let l = uncomment_line(s);
            lemma_uncomment(s);
            assert(has_no(l, '\n') && (has_no(s, c) ==> has_no(l, c))) by {
                assert forall|j: int| 0 <= j < l.len() implies l[j] == s[j] by {}
            }
        },
    }
}

/// The kept lines of a text, a line feed, and another text: the kept lines of
/// the first, then those of the second (when the first does not end with a
/// carriage return, which its last line would lose).
proof fn lemma_kept_concat(a: Seq<char>, b: Seq<char>)
    requires
        a.len() == 0 || a.last() != '\r',
    ensures
        kept_lines(a + seq!['\n'] + b) == kept_lines(a) + kept_lines(b),
    decreases a.len(),
{
    let s = a + seq!['\n'] + b;
    lemma_find_char_bound(a, '\n');
    match find_char(a, '\n') {
        Some(p) => {
            assert forall|k: int| 0 <= k < p implies s[k] != '\n' by {
                assert(s[k] == a[k]);
            }
            lemma_find_char_is(s, '\n', p);
            let a2 = a.skip((p + 1) as int);
            assert(s.take(p as int) =~= a.take(p as int));
            assert(s.skip((p + 1) as int) =~= a2 + seq!['\n'] + b);
            if a2.len() > 0 {
                assert(a2.last() == a.last());
            }
            lemma_kept_concat(a2, b);
        },
        None => {
            assert forall|k: int| 0 <= k < a.len() implies s[k] != '\n' by {
                assert(s[k] == a[k]);
            }
            lemma_find_char_is(s, '\n', a.len());
            assert(s.take(a.len() as int) =~= a);
            assert(s.skip(a.len() + 1 as int) =~= b);
            assert(strip_cr(a) == a);
        },
    }
}

/// The kept lines of a text, a CRLF line ending, and another text: the kept
/// lines of the first, then those of the second.
proof fn lemma_kept_crlf(a: Seq<char>, b: Seq<char>)
    requires
        a.len() == 0 || a.last() != '\r',
    ensures
        kept_lines(a + seq!['\r', '\n'] + b) == kept_lines(a) + kept_lines(b),
    decreases a.len(),
{
    let s = a + seq!['\r', '\n'] + b;
    lemma_find_char_bound(a, '\n');
    match find_char(a, '\n') {
        Some(p) => {
            assert forall|k: int| 0 <= k < p implies s[k] != '\n' by {
                assert(s[k] == a[k]);
            }
            lemma_find_char_is(s, '\n', p);
            let a2 = a.skip((p + 1) as int);
            assert(s.take(p as int) =~= a.take(p as int));
            assert(s.skip((p + 1) as int) =~= a2 + seq!['\r', '\n'] + b);
            if a2.len() > 0 {
                assert(a2.last() == a.last());
            }
            lemma_kept_crlf(a2, b);
        },
        None => {
            assert forall|k: int| 0 <= k < a.len() + 1 implies s[k] != '\n' by {
                if k < a.len() {
                    assert(s[k] == a[k]);
                } else {
                    assert(s[k] == '\r');
                }
            }
            lemma_find_char_is(s, '\n', a.len() + 1);
            assert(s.take(a.len() + 1 as int) =~= a.push('\r'));
            assert(a.push('\r').drop_last() =~= a);
            assert(s.skip(a.len() + 2 as int) =~= b);
        },
    }
}

/// Texts joined with a separator: the first ones joined, the separator, the
/// last ones joined (either part alone when the other is empty).
proof fn lemma_join_append(x: Seq<Seq<char>>, y: Seq<Seq<char>>, sep: Seq<char>)
    ensures
        join_with(x + y, sep) == if x.len() == 0 {
            join_with(y, sep)
        } else if y.len() == 0 {
            join_with(x, sep)
        } else {
            join_with(x, sep) + sep + join_with(y, sep)
        },
    decreases y.len(),
{
    if x.len() == 0 {
        assert(x + y =~= y);
    } else if y.len() == 0 {
        assert(x + y =~= x);
    } else {
        let y2 = y.drop_last();
        assert((x + y).drop_last() =~= x + y2);
        assert((x + y).last() == y.last());
        lemma_join_append(x, y2, sep);
        if y2.len() == 0 {
            assert(y =~= seq![y.last()]);
        }
    }
}

/// A joined list is empty exactly when the list is, given no empty item.
proof fn lemma_join_empty(ls: Seq<Seq<char>>, sep: Seq<char>)
    requires
        forall|i: int| 0 <= i < ls.len() ==> (#[trigger] ls[i]).len() > 0,
    ensures
        (join_with(ls, sep).len() == 0) == (ls.len() == 0),
{
    if ls.len() > 0 {
        assert(ls.last().len() > 0);
    }
}

proof fn lemma_join_has_no(ls: Seq<Seq<char>>, c: char)
    requires
        c != '\n',
        forall|i: int| 0 <= i < ls.len() ==> has_no(#[trigger] ls[i], c),
    ensures
        has_no(join_with(ls, seq!['\n']), c),
    decreases ls.len(),
{
    if ls.len() > 1 {
        lemma_join_has_no(ls.drop_last(), c);
        let x = join_with(ls.drop_last(), seq!['\n']);
        let l = ls.last();
        assert(has_no(l, c));
        assert forall|k: int| 0 <= k < (x + seq!['\n'] + l).len() implies (x + seq!['\n'] + l)[k]
            != c by {
            if k > x.len() {
                assert((x + seq!['\n'] + l)[k] == l[k - x.len() - 1]);
            }
        }
    } else if ls.len() == 1 {
        assert(has_no(ls[0], c));
    }
}

/// Joining lines that are not empty and hold no line feed, `#` or carriage
/// return, then reading back the kept lines, gives the lines.
proof fn lemma_kept_of_join(ls: Seq<Seq<char>>)
    requires
        forall|i: int|
            0 <= i < ls.len() ==> (#[trigger] ls[i]).len() > 0 && has_no(ls[i], '\n') && has_no(
                ls[i],
                '#',
            ) && has_no(ls[i], '\r'),
    ensures
        kept_lines(join_with(ls, seq!['\n'])) == ls,
    decreases ls.len(),
{
    if ls.len() == 0 {
        lemma_find_char_none(Seq::<char>::empty(), '\n');
        lemma_find_char_none(Seq::<char>::empty(), '#');
    } else {
        let l = ls.last();
        assert(l.len() > 0 && has_no(l, '\n') && has_no(l, '#'));
        lemma_find_char_none(l, '\n');
        lemma_find_char_none(l, '#');
        assert(kept_lines(l) == seq![l]);
        if ls.len() == 1 {
            assert(ls =~= seq![l]);
        } else {
            let x = ls.drop_last();
            lemma_kept_of_join(x);
            lemma_join_has_no(x, '\r');
            let j = join_with(x, seq!['\n']);
            assert(x[x.len() - 1].len() > 0);
            assert(j.len() > 0);
            assert(j.last() != '\r');
            lemma_kept_concat(j, l);
            assert(x + seq![l] =~= ls);
        }
    }
}

/// Removing comments from a text, a line feed, and another text gives the
/// first text without comments and the second without comments, joined by a
/// line feed (either alone when the other is left empty). The first text must
/// not end with a carriage return, which a line ending in the middle loses.
pub proof fn law_remove_comment_concat(a: Seq<char>, b: Seq<char>)
    requires
        a.len() == 0 || a.last() != '\r',
    ensures
        uncommented(a + seq!['\n'] + b) == if uncommented(a).len() == 0 {
            uncommented(b)
        } else if uncommented(b).len() == 0 {
            uncommented(a)
        } else {
            uncommented(a) + seq!['\n'] + uncommented(b)
        },
{
    lemma_kept_concat(a, b);
    lemma_join_append(kept_lines(a), kept_lines(b), seq!['\n']);
    lemma_kept_shape(a, '\r');
    lemma_kept_shape(b, '\r');
    lemma_join_empty(kept_lines(a), seq!['\n']);
    lemma_join_empty(kept_lines(b), seq!['\n']);
}

/// A line that ends in a carriage return and a line feed is read as one that
/// ends in a line feed alone: the carriage return is not part of the line.
/// (A text that itself ends in a carriage return keeps that one.)
pub proof fn law_remove_comment_crlf(a: Seq<char>, b: Seq<char>)
    requires
        a.len() == 0 || a.last() != '\r',
    ensures
        uncommented(a + seq!['\r', '\n'] + b) == uncommented(a + seq!['\n'] + b),
{
    lemma_kept_crlf(a, b);
    lemma_kept_concat(a, b);
}

/// Removing comments twice gives what removing them once gave, for a text
/// without carriage returns.
pub proof fn law_remove_comment_idempotent(s: Seq<char>)
    requires
        has_no(s, '\r'),
    ensures
        uncommented(uncommented(s)) == uncommented(s),
{
    lemma_kept_shape(s, '\r');
    lemma_kept_of_join(kept_lines(s));
}

/// The statements of an SQL script, as the schema loader runs them: the text
/// between semicolons, trailing whitespace removed, each non-empty one ended
/// with `;` and stripped of its comments.
pub open spec fn script_statements(pieces: Seq<Seq<char>>) -> Seq<Seq<char>>
    decreases pieces.len(),
{
    if pieces.len() == 0 {
        Seq::empty()
    } else {
        let t = trim_end(pieces[0]);
        let rest = script_statements(pieces.drop_first());
        if t.len() > 0 {
            seq![join_with(kept_lines(t + seq![';']), seq!['\n'])] + rest
        } else {
            rest
        }
    }
}

/// The statements that the schema loader sends, one by one, for a script.
pub fn sql_statements(script: &str) -> (r: Vec<String>)
    ensures
        r.deep_view() == script_statements(split_on(script@, ';')),
{
    let s = chars_of(script);
    let ghost all = s@;
    let mut out: Vec<String> = Vec::new();
    let mut start: usize = 0;
    let mut done = false;
    let ghost mut acc: Seq<Seq<char>> = Seq::empty();
    assert(all.skip(0) =~= all);
    while !done
        invariant
            all == s@,
            start <= s.len(),
            out.deep_view() == acc,
            !done ==> script_statements(split_on(all, ';')) == acc + script_statements(
                split_on(all.skip(start as int), ';'),
            ),
            done ==> script_statements(split_on(all, ';')) == acc,
        decreases s.len() - start + (if done { 0int } else { 1int }),
    {
        let ghost rest = all.skip(start as int);
        let p = find_from(&s, ';', start);
        let piece = sub_chars(&s, start, p);
        let t = trim_end_chars(piece);
        proof {
            lemma_find_char_bound(rest, ';');
            assert(piece@ =~= rest.take((p - start) as int));
        }
        let ghost tail = if p < s.len() {
            script_statements(split_on(all.skip(p + 1), ';'))
        } else {
            Seq::<Seq<char>>::empty()
        };
        proof {
            if p < s.len() {
                assert(rest.skip((p - start) + 1) =~= all.skip(p + 1));
                assert(split_on(rest, ';') == seq![rest.take((p - start) as int)] + split_on(
                    all.skip(p + 1),
                    ';',
                ));
                assert((seq![rest.take((p - start) as int)] + split_on(all.skip(p + 1), ';'))
                    .drop_first() =~= split_on(all.skip(p + 1), ';'));
            } else {
                assert(rest.take((p - start) as int) =~= rest);
                assert(split_on(rest, ';') == seq![rest]);
                assert(seq![rest].drop_first() =~= Seq::<Seq<char>>::empty());
            }
        }
        let ghost old_acc = acc;
        let ghost pieces = split_on(rest, ';');
        proof {
            assert(pieces[0] == rest.take((p - start) as int));
            assert(script_statements(pieces) == (if trim_end(pieces[0]).len() > 0 {
                seq![join_with(kept_lines(trim_end(pieces[0]) + seq![';']), seq!['\n'])]
            } else {
                Seq::<Seq<char>>::empty()
            }) + script_statements(pieces.drop_first())) by {
                if trim_end(pieces[0]).len() == 0 {
                    assert(Seq::<Seq<char>>::empty() + script_statements(pieces.drop_first())
                        =~= script_statements(pieces.drop_first()));
                }
            }
            assert(script_statements(pieces.drop_first()) == tail);
            assert(t@ == trim_end(pieces[0]));
            assert(script_statements(split_on(all, ';')) == old_acc + script_statements(pieces));
        }
        if t.len() > 0 {
            let mut stmt = t;
            stmt.push(';');
            assert(stmt@ =~= t@ + seq![';']);
            let text = string_of(stmt.as_slice());
            let cleaned = remove_comment(text.as_str());
            out.push(cleaned);
            proof {
                acc = acc.push(cleaned@);
                assert(out.deep_view() =~= acc);
                assert(old_acc + (seq![cleaned@] + tail) =~= acc + tail);
            }
        } else {
            assert(old_acc + (Seq::<Seq<char>>::empty() + tail) =~= acc + tail);
        }
        if p < s.len() {
            start = p + 1;
        } else {
            done = true;
            assert(acc + tail =~= acc);
        }
    }
    out
}

} // verus!
