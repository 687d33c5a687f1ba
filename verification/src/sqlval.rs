//! Values written into SQL text: numbers in decimal, strings quoted with their
//! backslashes, quotes and line breaks escaped; the statement text that a query
//! runs with; and the table list a query names.
use vstd::prelude::*;

use crate::text::{i64_text, int_text, nat_text, u64_text};

verus! {

/// How one character of a string is written inside a quoted SQL literal.
pub open spec fn escape_char(c: char) -> Seq<char> {
    if c == '\\' {
        seq!['\\', '\\']
    } else if c == '\'' {
        seq!['\\', '\'']
    } else if c == '\r' {
        seq!['\\', 'r']
    } else if c == '\n' {
        seq!['\\', 'n']
    } else {
        seq![c]
    }
}

/// A string with each character escaped.
pub open spec fn sql_escape(s: Seq<char>) -> Seq<char>
    decreases s.len(),
{
    if s.len() == 0 {
        Seq::empty()
    } else {
        escape_char(s[0]) + sql_escape(s.drop_first())
    }
}

/// Reading an escaped string back: a backslash and the character after it
/// stand for one character.
pub open spec fn sql_unescape(s: Seq<char>) -> Seq<char>
    decreases s.len(),
{
    if s.len() == 0 {
        Seq::empty()
    } else if s[0] == '\\' && s.len() >= 2 {
        let c = if s[1] == 'r' {
            '\r'
        } else if s[1] == 'n' {
            '\n'
        } else {
            s[1]
        };
        seq![c] + sql_unescape(s.skip(2))
    } else {
        seq![s[0]] + sql_unescape(s.drop_first())
    }
}

/// Escaping loses nothing: reading the escaped text back gives the string,
/// whatever it holds.
pub proof fn law_escape_unescape(s: Seq<char>)
    ensures
        sql_unescape(sql_escape(s)) == s,
    decreases s.len(),
{
    if s.len() > 0 {
        let e = sql_escape(s);
        let rest = sql_escape(s.drop_first());
        law_escape_unescape(s.drop_first());
        assert(e == escape_char(s[0]) + rest);
        if escape_char(s[0]).len() == 2 {
            assert(e.skip(2) =~= rest);
        } else {
            assert(e.drop_first() =~= rest);
        }
        assert(seq![s[0]] + s.drop_first() =~= s);
    }
}

/// The first index of a one-character pattern equal to `[c]`.
pub open spec fn find_pattern(pats: Seq<Seq<char>>, c: char) -> Option<nat>
    decreases pats.len(),
{
    if pats.len() == 0 {
        None
    } else if pats[0] == seq![c] {
        Some(0)
    } else {
        match find_pattern(pats.drop_first(), c) {
            Some(i) => Some(i + 1),
            None => None,
        }
    }
}

/// Each character of `s` that is one of the one-character patterns replaced by
/// the text that stands at the same index.
pub open spec fn replace_chars(s: Seq<char>, pats: Seq<Seq<char>>, with: Seq<Seq<char>>) -> Seq<
    char,
>
    decreases s.len(),
{
    if s.len() == 0 {
        Seq::empty()
    } else {
        (match find_pattern(pats, s[0]) {
            Some(i) => with[i as int],
            None => seq![s[0]],
        }) + replace_chars(s.drop_first(), pats, with)
    }
}

/// All characters below 128.
pub open spec fn all_ascii(s: Seq<char>) -> bool {
    forall|i: int| 0 <= i < s.len() ==> (#[trigger] s[i] as u32) < 128
}

/// `aho_corasick::AhoCorasick::try_stream_replace_all` over the bytes of
/// `haystack`, with an automaton built by `AhoCorasick::new` from `patterns`,
/// the bytes written read back with `String::from_utf8_lossy`. For patterns
/// that are distinct single ASCII characters every occurrence is a match of
/// its own, so each such character is replaced by the text at the same index
/// and every other byte is copied; ASCII replacements keep the text valid UTF-8.
#[verifier::external_body]
fn stream_replace_all(patterns: &[&str], haystack: &str, replace_with: &[&str]) -> (r: String)
    requires
        patterns@.len() == replace_with@.len(),
        forall|i: int| 0 <= i < patterns@.len() ==> (#[trigger] patterns@[i])@.len() == 1,
        forall|i: int| 0 <= i < patterns@.len() ==> all_ascii(#[trigger] patterns@[i]@),
        forall|i: int, j: int|
            0 <= i < j < patterns@.len() ==> patterns@[i]@ != patterns@[j]@,
        forall|i: int| 0 <= i < replace_with@.len() ==> all_ascii(#[trigger] replace_with@[i]@),
    ensures
        r@ == replace_chars(
            haystack@,
            patterns@.map_values(|p: &str| p@),
            replace_with@.map_values(|p: &str| p@),
        ),
{
    let ac = aho_corasick::AhoCorasick::new(patterns).unwrap();
    let mut wtr = vec![];
    ac.try_stream_replace_all(haystack.as_bytes(), &mut wtr, replace_with).unwrap();
    String::from_utf8_lossy(&wtr).into_owned()
}

proof fn lemma_replace_is_escape(s: Seq<char>, pats: Seq<Seq<char>>, with: Seq<Seq<char>>)
    requires
        pats == seq![seq!['\\'], seq!['\''], seq!['\r'], seq!['\n']],
        with == seq![seq!['\\', '\\'], seq!['\\', '\''], seq!['\\', 'r'], seq!['\\', 'n']],
    ensures
        replace_chars(s, pats, with) == sql_escape(s),
    decreases s.len(),
{
    reveal_with_fuel(find_pattern, 5);
    if s.len() > 0 {
        lemma_replace_is_escape(s.drop_first(), pats, with);
        let c = s[0];
        let p1 = pats.drop_first();
        let p2 = p1.drop_first();
        let p3 = p2.drop_first();
        assert(p1 =~= seq![seq!['\''], seq!['\r'], seq!['\n']]);
        assert(p2 =~= seq![seq!['\r'], seq!['\n']]);
        assert(p3 =~= seq![seq!['\n']]);
        assert(p3.drop_first() =~= Seq::<Seq<char>>::empty());
        assert(seq![c] == seq!['\\'] ==> c == '\\') by {
            if seq![c] == seq!['\\'] {
                assert(seq![c][0] == seq!['\\'][0]);
            }
        }
        assert(seq![c] == seq!['\''] ==> c == '\'') by {
            if seq![c] == seq!['\''] {
                assert(seq![c][0] == seq!['\''][0]);
            }
        }
        assert(seq![c] == seq!['\r'] ==> c == '\r') by {
            if seq![c] == seq!['\r'] {
                assert(seq![c][0] == seq!['\r'][0]);
            }
        }
        assert(seq![c] == seq!['\n'] ==> c == '\n') by {
            if seq![c] == seq!['\n'] {
                assert(seq![c][0] == seq!['\n'][0]);
            }
        }
        let head = match find_pattern(pats, c) {
            Some(i) => with[i as int],
            None => seq![c],
        };
        assert(head == escape_char(c));
    }
}

/// A value as it is written into SQL text.
#[derive(Debug, Clone)]
pub struct Val(String);

impl View for Val {
    type V = Seq<char>;

    closed spec fn view(&self) -> Seq<char> {
        self.0@
    }
}

impl Val {
    /// A number, in decimal.
    pub fn from_u64(v: u64) -> (r: Val)
        ensures
            r@ == nat_text(v as nat),
    {
        Val(u64_text(v))
    }

    /// A signed number, in decimal with a minus sign when it is negative.
    pub fn from_i64(v: i64) -> (r: Val)
        ensures
            r@ == int_text(v as int),
    {
        Val(i64_text(v))
    }

    /// A string, quoted, with its backslashes, quotes, carriage returns and
    /// line feeds escaped by a backslash.
    pub fn from_str(v: &str) -> (r: Val)
        ensures
            r@ == seq!['\''] + sql_escape(v@) + seq!['\''],
    {
        let patterns: Vec<&str> = vec!["\\", "\'", "\r", "\n"];
        let replace_with: Vec<&str> = vec!["\\\\", "\\\'", "\\r", "\\n"];
        proof {
            reveal_strlit("\\");
            reveal_strlit("\'");
            reveal_strlit("\r");
            reveal_strlit("\n");
            reveal_strlit("\\\\");
            reveal_strlit("\\\'");
            reveal_strlit("\\r");
            reveal_strlit("\\n");
            assert(patterns@[0]@ =~= seq!['\\']);
            assert(patterns@[1]@ =~= seq!['\'']);
            assert(patterns@[2]@ =~= seq!['\r']);
            assert(patterns@[3]@ =~= seq!['\n']);
            assert(replace_with@[0]@ =~= seq!['\\', '\\']);
            assert(replace_with@[1]@ =~= seq!['\\', '\'']);
            assert(replace_with@[2]@ =~= seq!['\\', 'r']);
            assert(replace_with@[3]@ =~= seq!['\\', 'n']);
            assert forall|i: int| 0 <= i < patterns@.len() implies all_ascii(
                #[trigger] patterns@[i]@,
            ) by {}
            assert forall|i: int| 0 <= i < replace_with@.len() implies all_ascii(
                #[trigger] replace_with@[i]@,
            ) by {}
            assert forall|i: int, j: int|
                0 <= i < j < patterns@.len() implies patterns@[i]@ != patterns@[j]@ by {
                assert(patterns@[i]@[0] != patterns@[j]@[0]);
            }
        }
        let escaped = stream_replace_all(patterns.as_slice(), v, replace_with.as_slice());
        proof {
            let pats = patterns@.map_values(|p: &str| p@);
            let with = replace_with@.map_values(|p: &str| p@);
            assert(pats =~= seq![seq!['\\'], seq!['\''], seq!['\r'], seq!['\n']]);
            assert(with =~= seq![
                seq!['\\', '\\'],
                seq!['\\', '\''],
                seq!['\\', 'r'],
                seq!['\\', 'n'],
            ]);
            lemma_replace_is_escape(v@, pats, with);
        }
        let mut s = String::from_str("\'");
        s.append(escaped.as_str());
        s.append("\'");
        proof {
            reveal_strlit("\'");
        }
        Val(s)
    }

    /// A string, as `from_str` writes it.
    pub fn from_string(v: String) -> (r: Val)
        ensures
            r@ == seq!['\''] + sql_escape(v@) + seq!['\''],
    {
        Val::from_str(v.as_str())
    }

    /// The text of the value.
    pub fn as_str(&self) -> (r: &str)
        ensures
            r@ == self@,
    {
        self.0.as_str()
    }

    /// The text of the value, as its own string.
    pub fn to_string(&self) -> (r: String)
        ensures
            r@ == self@,
    {
        self.0.clone()
    }
}

/// The values a statement is run with.
pub struct ValLi(pub Vec<Val>);

impl ValLi {
    /// No values.
    pub fn from_unit() -> (r: ValLi)
        ensures
            r.0@.len() == 0,
    {
        ValLi(Vec::new())
    }

    /// One value.
    pub fn from_val(v: Val) -> (r: ValLi)
        ensures
            r.0@ == seq![v],
    {
        ValLi(vec![v])
    }

    /// The values of a list, in order.
    pub fn from_vals(vals: Vec<Val>) -> (r: ValLi)
        ensures
            r.0@ == vals@,
    {
        ValLi(vals)
    }
}

/// The tables a statement names.
pub struct Tables(pub Vec<String>);

impl Tables {
    /// The given table names.
    pub fn from_vec(v: Vec<String>) -> (r: Tables)
        ensures
            r.0@ == v@,
    {
        Tables(v)
    }

    /// The given table names, as strings of their own.
    pub fn from_strs(v: &[&str]) -> (r: Tables)
        ensures
            r.0.deep_view() == v@.map_values(|s: &str| s@),
    {
        let mut out: Vec<String> = Vec::new();
        let mut i: usize = 0;
        while i < v.len()
            invariant
                i <= v.len(),
                out@.len() == i,
                out.deep_view() == v@.take(i as int).map_values(|s: &str| s@),
            decreases v.len() - i,
        {
            let ghost prev = out.deep_view();
            let o = v[i].to_owned();
            let ghost before = out@;
            out.push(o);
            proof {
                assert(out@ == before.push(o));
                assert(out@.len() == i + 1);
                let t = v@.take(i + 1).map_values(|s: &str| s@);
                assert forall|k: int| 0 <= k < i + 1 implies out.deep_view()[k] == t[k] by {
                    if k < i {
                        assert(out.deep_view()[k] == prev[k]);
                    } else {
                        assert(out@[k] == o);
                    }
                }
                assert(out.deep_view() =~= t);
            }
            i = i + 1;
        }
        assert(v@.take(v.len() as int) =~= v@);
        Tables(out)
    }
}

/// How `dyn_fmt` writes a format string, reading its current piece `s` from
/// index `pe` on: a `{` ends the piece and opens an argument; a `}` ends it and
/// the character after it is kept as text; the text after the last brace is
/// written as it is.
pub open spec fn fmt_piece(s: Seq<char>, pe: int, args: Seq<Seq<char>>) -> Seq<char>
    decreases s.len(), s.len() - pe,
{
    if pe < 0 || pe >= s.len() {
        s
    } else if s[pe] == '{' || s[pe] == '}' {
        let rest = s.skip(pe + 1);
        s.take(pe) + (if rest.len() == 0 {
            Seq::empty()
        } else if s[pe] == '{' {
            fmt_arg(rest, args)
        } else {
            fmt_piece(rest, 1, args)
        })
    } else {
        fmt_piece(s, pe + 1, args)
    }
}

/// After a `{`: a `}` closes it and the next argument is written (nothing once
/// they have run out); any other character is kept as the start of a piece.
pub open spec fn fmt_arg(s: Seq<char>, args: Seq<Seq<char>>) -> Seq<char>
    decreases s.len(), s.len() + 1,
{
    if s.len() == 0 {
        Seq::empty()
    } else if s[0] == '}' {
        if args.len() > 0 {
            args[0] + fmt_piece(s.skip(1), 0, args.drop_first())
        } else {
            fmt_piece(s.skip(1), 0, args)
        }
    } else {
        fmt_piece(s, 1, args)
    }
}

/// The text that `dyn_fmt` makes of a format string and its arguments: each
/// `{}` replaced by the next argument (by nothing once they have run out,
/// extra ones ignored), `{{` and `}}` written as one brace.
pub open spec fn dyn_format_of(fmt: Seq<char>, args: Seq<Seq<char>>) -> Seq<char> {
    fmt_piece(fmt, 0, args)
}

/// `dyn_fmt::AsStrFormatExt::format`: the state machine of its `Arguments`
/// display, as `dyn_format_of` states it.
#[verifier::external_body]
fn dyn_format(fmt: &str, args: &[String]) -> (r: String)
    ensures
        r@ == dyn_format_of(fmt@, args.deep_view()),
{
    dyn_fmt::AsStrFormatExt::format(&fmt, args)
}

/// The text a statement runs with: the format with its `{}` filled from the
/// values when there are any, the statement as written when there are none.
pub fn sql_text(sql: &str, args: &ValLi) -> (r: String)
    ensures
        args.0@.len() > 0 ==> r@ == dyn_format_of(sql@, args.0@.map_values(|v: Val| v@)),
        args.0@.len() == 0 ==> r@ == sql@,
{
    if args.0.len() > 0 {
        let mut texts: Vec<String> = Vec::new();
        let mut i: usize = 0;
        while i < args.0.len()
            invariant
                i <= args.0.len(),
                texts@.len() == i,
                texts.deep_view() == args.0@.take(i as int).map_values(|v: Val| v@),
            decreases args.0.len() - i,
        {
            let ghost prev = texts.deep_view();
            let t1 = args.0[i].to_string();
            texts.push(t1);
            proof {
                let t = args.0@.take(i + 1).map_values(|v: Val| v@);
                assert forall|k: int| 0 <= k < i + 1 implies texts.deep_view()[k] == t[k] by {
                    if k < i {
                        assert(texts.deep_view()[k] == prev[k]);
                    } else {
                        assert(texts@[k] == t1);
                    }
                }
                assert(texts.deep_view() =~= t);
            }
            i = i + 1;
        }
        assert(args.0@.take(args.0.len() as int) =~= args.0@);
        dyn_format(sql, texts.as_slice())
    } else {
        sql.to_owned()
    }
}

} // verus!
