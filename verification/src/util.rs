use vstd::prelude::*;
use vstd::string::StringExecFns;

verus! {

/// The escape sequence that `to_literal` writes for one character.
pub open spec fn escape_char(c: char) -> Seq<char> {
    if c == '\x07' {
        seq!['\\', 'a']
    } else if c == '\x08' {
        seq!['\\', 'b']
    } else if c == '\x0C' {
        seq!['\\', 'f']
    } else if c == '\n' {
        seq!['\\', 'n']
    } else if c == '\r' {
        seq!['\\', 'r']
    } else if c == '\t' {
        seq!['\\', 't']
    } else if c == '\x0B' {
        seq!['\\', 'v']
    } else if c == '\\' {
        seq!['\\', '\\']
    } else if c == '"' {
        seq!['\\', '"']
    } else {
        seq![c]
    }
}

/// Every character of `s` replaced by its escape sequence, in order.
pub open spec fn escape_chars(s: Seq<char>) -> Seq<char>
    decreases s.len(),
{
    if s.len() == 0 {
        Seq::empty()
    } else {
        escape_chars(s.drop_last()) + escape_char(s.last())
    }
}

/// The quoted, escaped literal for `s`.
pub open spec fn literal_of(s: Seq<char>) -> Seq<char> {
    seq!['"'] + escape_chars(s) + seq!['"']
}

/// Appends one character to a string.
#[verifier::external_body]
pub(crate) fn push_char(s: &mut String, c: char)
    ensures
        final(s)@ == old(s)@.push(c),
{
    s.push(c);
}

/// Escapes a string into a protobuf-compatible string literal with surrounding quotes.
pub fn to_literal(input: &str) -> (literal: String)
    ensures
        literal@ == literal_of(input@),
{
    let mut literal = String::new();
    push_char(&mut literal, '"');
    for c in it: input.chars()
        invariant
            it.seq() == input@,
            literal@ == seq!['"'] + escape_chars(input@.take(it.index() as int)),
    {
        proof {
            assert(input@.take(it.index() + 1).drop_last() =~= input@.take(it.index() as int));
        }
        if c == '\x07' {
            push_char(&mut literal, '\\');
            push_char(&mut literal, 'a');
        } else if c == '\x08' {
            push_char(&mut literal, '\\');
            push_char(&mut literal, 'b');
        } else if c == '\x0C' {
            push_char(&mut literal, '\\');
            push_char(&mut literal, 'f');
        } else if c == '\n' {
            push_char(&mut literal, '\\');
            push_char(&mut literal, 'n');
        } else if c == '\r' {
            push_char(&mut literal, '\\');
            push_char(&mut literal, 'r');
        } else if c == '\t' {
            push_char(&mut literal, '\\');
            push_char(&mut literal, 't');
        } else if c == '\x0B' {
            push_char(&mut literal, '\\');
            push_char(&mut literal, 'v');
        } else if c == '\\' {
            push_char(&mut literal, '\\');
            push_char(&mut literal, '\\');
        } else if c == '"' {
            push_char(&mut literal, '\\');
            push_char(&mut literal, '"');
        } else {
            push_char(&mut literal, c);
        }
        assert(literal@ =~= seq!['"'] + escape_chars(input@.take(it.index() + 1)));
    }
    assert(input@.take(input@.len() as int) =~= input@);
    push_char(&mut literal, '"');
    literal
}


/// The character that the escape `\x` stands for.
pub open spec fn unescape_char(x: char) -> char {
    if x == 'a' {
        '\x07'
    } else if x == 'b' {
        '\x08'
    } else if x == 'f' {
        '\x0C'
    } else if x == 'n' {
        '\n'
    } else if x == 'r' {
        '\r'
    } else if x == 't' {
        '\t'
    } else if x == 'v' {
        '\x0B'
    } else {
        x
    }
}

/// Reads escaped text back: `\x` stands for `unescape_char(x)`, any other
/// character for itself.
pub open spec fn unescape(t: Seq<char>) -> Seq<char>
    decreases t.len(),
{
    if t.len() == 0 {
        Seq::empty()
    } else if t[0] == '\\' && t.len() >= 2 {
        seq![unescape_char(t[1])] + unescape(t.subrange(2, t.len() as int))
    } else {
        seq![t[0]] + unescape(t.drop_first())
    }
}

/// The text between the quotes of a literal, read back.
pub open spec fn literal_text(lit: Seq<char>) -> Seq<char> {
    unescape(lit.subrange(1, lit.len() - 1))
}

proof fn lemma_escape_chars_front(s: Seq<char>)
    requires
        s.len() > 0,
    ensures
        escape_chars(s) == escape_char(s[0]) + escape_chars(s.drop_first()),
    decreases s.len(),
{
    if s.len() == 1 {
        assert(s.drop_last() =~= Seq::<char>::empty());
        assert(s.drop_first() =~= Seq::<char>::empty());
        assert(escape_chars(s) =~= escape_char(s[0]) + escape_chars(s.drop_first()));
    } else {
        lemma_escape_chars_front(s.drop_last());
        assert(s.drop_last().drop_first() =~= s.drop_first().drop_last());
        assert(s.drop_first().last() == s.last());
        assert(escape_chars(s) =~= escape_char(s[0]) + escape_chars(s.drop_first()));
    }
}

proof fn lemma_unescape_escaped(s: Seq<char>)
    ensures
        unescape(escape_chars(s)) == s,
    decreases s.len(),
{
    if s.len() == 0 {
        assert(escape_chars(s) =~= Seq::<char>::empty());
        assert(unescape(escape_chars(s)) =~= s);
    } else {
        lemma_escape_chars_front(s);
        lemma_unescape_escaped(s.drop_first());
        let c = s[0];
        let rest = escape_chars(s.drop_first());
        let t = escape_char(c) + rest;
        if escape_char(c).len() == 2 {
            assert(t[0] == '\\');
            assert(unescape_char(t[1]) == c);
            assert(t.subrange(2, t.len() as int) =~= rest);
        } else {
            assert(t[0] == c);
            assert(c != '\\');
            assert(t.drop_first() =~= rest);
        }
        assert(unescape(t) =~= s);
    }
}

/// A literal is read back as the text it was made from: between its quotes,
/// undoing the escapes gives the input again. So two different texts never
/// give the same literal.
pub proof fn law_literal_reads_back(s: Seq<char>)
    ensures
        literal_of(s).len() >= 2,
        literal_of(s)[0] == '"',
        literal_of(s)[literal_of(s).len() - 1] == '"',
        literal_text(literal_of(s)) == s,
{
    let lit = literal_of(s);
    assert(lit.subrange(1, lit.len() - 1) =~= escape_chars(s));
    lemma_unescape_escaped(s);
}

proof fn lemma_plain_escapes(s: Seq<char>)
    requires
        forall|i: int| 0 <= i < s.len() ==> escape_char(#[trigger] s[i]) == seq![s[i]],
    ensures
        escape_chars(s) == s,
    decreases s.len(),
{
    if s.len() > 0 {
        assert forall|i: int| 0 <= i < s.drop_last().len() implies escape_char(
            #[trigger] s.drop_last()[i],
        ) == seq![s.drop_last()[i]] by {
            assert(s.drop_last()[i] == s[i]);
        }
        lemma_plain_escapes(s.drop_last());
        assert(escape_char(s[s.len() - 1]) == seq![s[s.len() - 1]]);
        assert(s.drop_last() + seq![s.last()] =~= s);
    } else {
        assert(escape_chars(s) =~= s);
    }
}

/// Text without a character that needs escaping is written as it is, in quotes.
pub proof fn law_plain_text_is_only_quoted(s: Seq<char>)
    requires
        forall|i: int| 0 <= i < s.len() ==> escape_char(#[trigger] s[i]) == seq![s[i]],
    ensures
        literal_of(s) == seq!['"'] + s + seq!['"'],
{
    lemma_plain_escapes(s);
}

} // verus!
