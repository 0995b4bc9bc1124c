//! Escaping of character data for XML, and the decoding of the entity
//! references that it writes.

use vstd::prelude::*;
use vstd::string::StringExecFns;

verus! {

/// The entity reference that stands for `<`.
pub open spec fn entity_lt() -> Seq<char> {
    seq!['&', 'l', 't', ';']
}

/// The entity reference that stands for `>`.
pub open spec fn entity_gt() -> Seq<char> {
    seq!['&', 'g', 't', ';']
}

/// The entity reference that stands for `&`.
pub open spec fn entity_amp() -> Seq<char> {
    seq!['&', 'a', 'm', 'p', ';']
}

/// The entity reference that stands for `"`.
pub open spec fn entity_quot() -> Seq<char> {
    seq!['&', 'q', 'u', 'o', 't', ';']
}

/// The entity reference that stands for `'`.
pub open spec fn entity_apos() -> Seq<char> {
    seq!['&', 'a', 'p', 'o', 's', ';']
}

/// Whether `c` is one of the five characters that XML reserves for markup.
pub open spec fn is_markup_char(c: char) -> bool {
    c == '<' || c == '>' || c == '&' || c == '"' || c == '\''
}

/// What one character becomes in escaped text: its entity reference when it
/// is a markup character, and the character itself otherwise.
pub open spec fn escape_char(c: char) -> Seq<char> {
    if c == '<' {
        entity_lt()
    } else if c == '>' {
        entity_gt()
    } else if c == '&' {
        entity_amp()
    } else if c == '"' {
        entity_quot()
    } else if c == '\'' {
        entity_apos()
    } else {
        seq![c]
    }
}

/// The escaped form of `s`: each character replaced by `escape_char`.
pub open spec fn xml_escape(s: Seq<char>) -> Seq<char>
    decreases s.len(),
{
    if s.len() == 0 {
        Seq::empty()
    } else {
        escape_char(s[0]) + xml_escape(s.drop_first())
    }
}

/// The character and the length of the entity reference that `s` begins
/// with, if it begins with one of the five predefined references.
pub open spec fn leading_entity(s: Seq<char>) -> Option<(char, nat)> {
    if entity_lt().is_prefix_of(s) {
        Some(('<', 4nat))
    } else if entity_gt().is_prefix_of(s) {
        Some(('>', 4nat))
    } else if entity_amp().is_prefix_of(s) {
        Some(('&', 5nat))
    } else if entity_quot().is_prefix_of(s) {
        Some(('"', 6nat))
    } else if entity_apos().is_prefix_of(s) {
        Some(('\'', 6nat))
    } else {
        None
    }
}

/// The decoding of the five predefined entity references in `s`: each is
/// replaced by the character it stands for, and every other character stays.
///
/// This is the part of reading character data that escaping answers to. It
/// is not all that an XML parser does: a parser turns a carriage return into
/// a line feed and refuses most control characters, and escaping writes both
/// as they are.
pub open spec fn xml_unescape(s: Seq<char>) -> Seq<char>
    decreases s.len(),
{
    if s.len() == 0 {
        Seq::empty()
    } else {
        match leading_entity(s) {
            Some((c, n)) => if 0 < n <= s.len() {
                seq![c] + xml_unescape(s.skip(n as int))
            } else {
                Seq::empty()
            },
            None => seq![s[0]] + xml_unescape(s.skip(1)),
        }
    }
}

/// Whether `s` is free of raw markup: it holds no `<`, `>`, `"` or `'`, and
/// every `&` in it starts one of the five predefined entity references.
pub open spec fn is_character_data(s: Seq<char>) -> bool {
    forall|i: int|
        0 <= i < s.len() ==> {
            &&& s[i] != '<'
            &&& s[i] != '>'
            &&& s[i] != '"'
            &&& s[i] != '\''
            &&& (#[trigger] s[i] == '&' ==> leading_entity(s.skip(i)) is Some)
        }
}

/// Escaping a sequence that ends in `c` escapes what comes before and then `c`.
pub proof fn lemma_escape_push(s: Seq<char>, c: char)
    ensures
        xml_escape(s.push(c)) == xml_escape(s) + escape_char(c),
    decreases s.len(),
{
    if s.len() == 0 {
        assert(s.push(c).drop_first() =~= Seq::<char>::empty());
        assert(xml_escape(s.push(c).drop_first()) =~= Seq::<char>::empty());
        assert(s.push(c)[0] == c);
        assert(xml_escape(s) =~= Seq::<char>::empty());
        assert(xml_escape(s.push(c)) =~= xml_escape(s) + escape_char(c));
    } else {
        assert(s.push(c).drop_first() =~= s.drop_first().push(c));
        lemma_escape_push(s.drop_first(), c);
        assert(xml_escape(s.push(c)) =~= xml_escape(s) + escape_char(c));
    }
}

/// Decoding what `escape_char` wrote for `c`, followed by any text `rest`,
/// gives `c` followed by the decoding of `rest`.
pub proof fn lemma_unescape_escaped_char(c: char, rest: Seq<char>)
    ensures
        xml_unescape(escape_char(c) + rest) == seq![c] + xml_unescape(rest),
{
    let e = escape_char(c);
    let s = e + rest;
    assert(s.len() > 0);
    assert(s[0] == e[0]);
    if is_markup_char(c) {
        assert(e.is_prefix_of(s)) by {
            assert(s.subrange(0, e.len() as int) =~= e);
        }
        assert(s.skip(e.len() as int) =~= rest);
        if c == '<' {
        } else if c == '>' {
            assert(!entity_lt().is_prefix_of(s)) by {
                assert(s[1] == 'g');
                if entity_lt().is_prefix_of(s) {
                    assert(s.subrange(0, 4)[1] == entity_lt()[1]);
                }
            }
        } else if c == '&' {
            assert(s[1] == 'a' && s[2] == 'm');
            assert(!entity_lt().is_prefix_of(s)) by {
                if entity_lt().is_prefix_of(s) {
                    assert(s.subrange(0, 4)[1] == entity_lt()[1]);
                }
            }
            assert(!entity_gt().is_prefix_of(s)) by {
                if entity_gt().is_prefix_of(s) {
                    assert(s.subrange(0, 4)[1] == entity_gt()[1]);
                }
            }
        } else if c == '"' {
            assert(s[1] == 'q');
            assert(!entity_lt().is_prefix_of(s)) by {
                if entity_lt().is_prefix_of(s) {
                    assert(s.subrange(0, 4)[1] == entity_lt()[1]);
                }
            }
            assert(!entity_gt().is_prefix_of(s)) by {
                if entity_gt().is_prefix_of(s) {
                    assert(s.subrange(0, 4)[1] == entity_gt()[1]);
                }
            }
            assert(!entity_amp().is_prefix_of(s)) by {
                if entity_amp().is_prefix_of(s) {
                    assert(s.subrange(0, 5)[1] == entity_amp()[1]);
                }
            }
        } else {
            assert(s[1] == 'a' && s[2] == 'p');
            assert(!entity_lt().is_prefix_of(s)) by {
                if entity_lt().is_prefix_of(s) {
                    assert(s.subrange(0, 4)[1] == entity_lt()[1]);
                }
            }
            assert(!entity_gt().is_prefix_of(s)) by {
                if entity_gt().is_prefix_of(s) {
                    assert(s.subrange(0, 4)[1] == entity_gt()[1]);
                }
            }
            assert(!entity_amp().is_prefix_of(s)) by {
                if entity_amp().is_prefix_of(s) {
                    assert(s.subrange(0, 5)[2] == entity_amp()[2]);
                }
            }
            assert(!entity_quot().is_prefix_of(s)) by {
                if entity_quot().is_prefix_of(s) {
                    assert(s.subrange(0, 6)[1] == entity_quot()[1]);
                }
            }
        }
    } else {
        assert(s[0] == c);
        assert(leading_entity(s) is None) by {
            if entity_lt().is_prefix_of(s) {
                assert(s.subrange(0, 4)[0] == entity_lt()[0]);
            }
            if entity_gt().is_prefix_of(s) {
                assert(s.subrange(0, 4)[0] == entity_gt()[0]);
            }
            if entity_amp().is_prefix_of(s) {
                assert(s.subrange(0, 5)[0] == entity_amp()[0]);
            }
            if entity_quot().is_prefix_of(s) {
                assert(s.subrange(0, 6)[0] == entity_quot()[0]);
            }
            if entity_apos().is_prefix_of(s) {
                assert(s.subrange(0, 6)[0] == entity_apos()[0]);
            }
        }
        assert(s.skip(1) =~= rest);
    }
}

/// Decoding the entity references of escaped text gives the text that was
/// escaped, for every sequence of characters. Of characters that a parser
/// changes or refuses for other reasons (a carriage return, a control
/// character) this says nothing: they are written as they are.
pub proof fn lemma_escape_round_trip(s: Seq<char>)
    ensures
        xml_unescape(xml_escape(s)) == s,
    decreases s.len(),
{
    if s.len() == 0 {
        assert(xml_unescape(xml_escape(s)) =~= s);
    } else {
        lemma_escape_round_trip(s.drop_first());
        lemma_unescape_escaped_char(s[0], xml_escape(s.drop_first()));
        assert(seq![s[0]] + s.drop_first() =~= s);
    }
}

/// Escaped text holds no raw markup, whatever was escaped.
pub proof fn lemma_escape_is_character_data(s: Seq<char>)
    ensures
        is_character_data(xml_escape(s)),
    decreases s.len(),
{
    if s.len() > 0 {
        let e = escape_char(s[0]);
        let rest = xml_escape(s.drop_first());
        let all = xml_escape(s);
        lemma_escape_is_character_data(s.drop_first());
        assert(all == e + rest);
        assert forall|i: int| 0 <= i < all.len() implies {
            &&& all[i] != '<'
            &&& all[i] != '>'
            &&& all[i] != '"'
            &&& all[i] != '\''
            &&& (#[trigger] all[i] == '&' ==> leading_entity(all.skip(i)) is Some)
        } by {
            if i < e.len() {
                assert(all[i] == e[i]);
                if all[i] == '&' {
                    assert(i == 0);
                    assert(is_markup_char(s[0]));
                    assert(all.skip(0) =~= all);
                    assert(e.is_prefix_of(all)) by {
                        assert(all.subrange(0, e.len() as int) =~= e);
                    }
                }
            } else {
                let j = i - e.len();
                assert(all[i] == rest[j]);
                assert(all.skip(i) =~= rest.skip(j));
            }
        }
    }
}

/// Appends the escaped form of `text` to `out`.
pub fn push_escaped(out: &mut String, text: &str)
    ensures
        final(out)@ == old(out)@ + xml_escape(text@),
{
    let ghost start = out@;
    proof {
        assert(text@.take(0) =~= Seq::<char>::empty());
        assert(out@ =~= start + xml_escape(text@.take(0)));
    }
    for c in it: text.chars()
        invariant
            it.seq() == text@,
            out@ == start + xml_escape(text@.take(it.index() as int)),
    {
        proof {
            let k = it.index() as int;
            assert(text@.take(k + 1) =~= text@.take(k).push(c));
            lemma_escape_push(text@.take(k), c);
            reveal_strlit("&lt;");
            reveal_strlit("&gt;");
            reveal_strlit("&amp;");
            reveal_strlit("&quot;");
            reveal_strlit("&apos;");
            assert("&lt;"@ =~= entity_lt());
            assert("&gt;"@ =~= entity_gt());
            assert("&amp;"@ =~= entity_amp());
            assert("&quot;"@ =~= entity_quot());
            assert("&apos;"@ =~= entity_apos());
        }
        let ghost before = out@;
        if c == '<' {
            out.append("&lt;");
        } else if c == '>' {
            out.append("&gt;");
        } else if c == '&' {
            out.append("&amp;");
        } else if c == '"' {
            out.append("&quot;");
        } else if c == '\'' {
            out.append("&apos;");
        } else {
            out.push(c);
            assert(out@ =~= before + escape_char(c));
        }
        assert(out@ =~= start + xml_escape(text@.take(it.index() + 1)));
    }
    proof {
        assert(text@.take(text@.len() as int) =~= text@);
    }
}

/// The escaped form of `text` as a fresh string.
pub fn escape_text(text: &str) -> (s: String)
    ensures
        s@ == xml_escape(text@),
{
    let mut s = String::new();
    push_escaped(&mut s, text);
    assert(s@ =~= xml_escape(text@));
    s
}

} // verus!
