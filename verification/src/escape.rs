//! Text made safe inside HTML and XML.

use crate::text::{chars_of, Text};
use vstd::prelude::*;

verus! {

/// How `c` is written in HTML text or an attribute.
pub open spec fn html_entity(c: char) -> Text {
    if c == '&' {
        "&amp;"@
    } else if c == '<' {
        "&lt;"@
    } else if c == '>' {
        "&gt;"@
    } else if c == '"' {
        "&quot;"@
    } else if c == '\'' {
        "&#x27;"@
    } else {
        seq![c]
    }
}

/// How `c` is written in XML text or an attribute.
pub open spec fn xml_entity(c: char) -> Text {
    if c == '&' {
        "&amp;"@
    } else if c == '<' {
        "&lt;"@
    } else if c == '>' {
        "&gt;"@
    } else if c == '"' {
        "&quot;"@
    } else if c == '\'' {
        "&apos;"@
    } else {
        seq![c]
    }
}

/// `s` with each character as HTML writes it.
pub open spec fn html_escaped(s: Text) -> Text
    decreases s.len(),
{
    if s.len() == 0 {
        Seq::empty()
    } else {
        html_entity(s[0]) + html_escaped(s.skip(1))
    }
}

/// `s` with each character as XML writes it.
pub open spec fn xml_escaped(s: Text) -> Text
    decreases s.len(),
{
    if s.len() == 0 {
        Seq::empty()
    } else {
        xml_entity(s[0]) + xml_escaped(s.skip(1))
    }
}

/// A character that would end or begin markup.
pub open spec fn is_markup(c: char) -> bool {
    c == '<' || c == '>' || c == '"' || c == '\''
}

/// `value` as HTML writes it.
pub fn html_escape(value: &str) -> (r: String)
    ensures
        r@ == html_escaped(value@),
{
    let a = chars_of(value);
    let mut r = String::new();
    let mut i: usize = 0;
    assert(value@.skip(0) =~= value@);
    while i < a.len()
        invariant
            i <= a@.len(),
            a@ == value@,
            r@ + html_escaped(value@.skip(i as int)) == html_escaped(value@),
        decreases a@.len() - i,
    {
        let c = a[i];
        let ghost before = r@;
        assert(value@.skip(i as int)[0] == c);
        assert(value@.skip(i as int).skip(1) =~= value@.skip(i + 1));
        if c == '&' {
            r.append("&amp;");
        } else if c == '<' {
            r.append("&lt;");
        } else if c == '>' {
            r.append("&gt;");
        } else if c == '"' {
            r.append("&quot;");
        } else if c == '\'' {
            r.append("&#x27;");
        } else {
            r.push(c);
            assert(r@ =~= before + seq![c]);
        }
        assert(before + (html_entity(c) + html_escaped(value@.skip(i + 1))) =~= (before
            + html_entity(c)) + html_escaped(value@.skip(i + 1)));
        i += 1;
    }
    assert(r@ + html_escaped(value@.skip(i as int)) =~= r@);
    r
}

/// `value` as XML writes it.
pub fn xml_escape(value: &str) -> (r: String)
    ensures
        r@ == xml_escaped(value@),
{
    let a = chars_of(value);
    let mut r = String::new();
    let mut i: usize = 0;
    assert(value@.skip(0) =~= value@);
    while i < a.len()
        invariant
            i <= a@.len(),
            a@ == value@,
            r@ + xml_escaped(value@.skip(i as int)) == xml_escaped(value@),
        decreases a@.len() - i,
    {
        let c = a[i];
        let ghost before = r@;
        assert(value@.skip(i as int)[0] == c);
        assert(value@.skip(i as int).skip(1) =~= value@.skip(i + 1));
        if c == '&' {
            r.append("&amp;");
        } else if c == '<' {
            r.append("&lt;");
        } else if c == '>' {
            r.append("&gt;");
        } else if c == '"' {
            r.append("&quot;");
        } else if c == '\'' {
            r.append("&apos;");
        } else {
            r.push(c);
            assert(r@ =~= before + seq![c]);
        }
        assert(before + (xml_entity(c) + xml_escaped(value@.skip(i + 1))) =~= (before
            + xml_entity(c)) + xml_escaped(value@.skip(i + 1)));
        i += 1;
    }
    assert(r@ + xml_escaped(value@.skip(i as int)) =~= r@);
    r
}

/// What the entities are made of.
proof fn lemma_entities()
    ensures
        "&amp;"@ =~= seq!['&', 'a', 'm', 'p', ';'],
        "&lt;"@ =~= seq!['&', 'l', 't', ';'],
        "&gt;"@ =~= seq!['&', 'g', 't', ';'],
        "&quot;"@ =~= seq!['&', 'q', 'u', 'o', 't', ';'],
        "&#x27;"@ =~= seq!['&', '#', 'x', '2', '7', ';'],
        "&apos;"@ =~= seq!['&', 'a', 'p', 'o', 's', ';'],
{
    reveal_strlit("&amp;");
    reveal_strlit("&lt;");
    reveal_strlit("&gt;");
    reveal_strlit("&quot;");
    reveal_strlit("&#x27;");
    reveal_strlit("&apos;");
}

/// Escaped text holds no character that begins or ends markup or an attribute value, neither in
/// HTML nor in XML.
pub proof fn law_escaped_text_holds_no_markup(s: Text)
    ensures
        forall|i: int| 0 <= i < html_escaped(s).len() ==> !is_markup(#[trigger] html_escaped(s)[i]),
        forall|i: int| 0 <= i < xml_escaped(s).len() ==> !is_markup(#[trigger] xml_escaped(s)[i]),
    decreases s.len(),
{
    if s.len() > 0 {
        lemma_entities();
        let c = s[0];
        let rest = s.skip(1);
        law_escaped_text_holds_no_markup(rest);
        let html = html_escaped(s);
        let xml = xml_escaped(s);
        assert forall|i: int| 0 <= i < html.len() implies !is_markup(#[trigger] html[i]) by {
            if i < html_entity(c).len() {
                assert(html[i] == html_entity(c)[i]);
            } else {
                assert(html[i] == html_escaped(rest)[i - html_entity(c).len()]);
            }
        }
        assert forall|i: int| 0 <= i < xml.len() implies !is_markup(#[trigger] xml[i]) by {
            if i < xml_entity(c).len() {
                assert(xml[i] == xml_entity(c)[i]);
            } else {
                assert(xml[i] == xml_escaped(rest)[i - xml_entity(c).len()]);
            }
        }
    }
}

/// Texts are escaped letter by letter: markup becomes the entity that stands for it, and every other
/// character stays as it is.
pub proof fn law_markup_becomes_entities(c: char, rest: Text)
    ensures
        html_escaped(Seq::empty()) == Seq::<char>::empty(),
        xml_escaped(Seq::empty()) == Seq::<char>::empty(),
        ({
            let html = html_escaped(seq![c] + rest);
            let xml = xml_escaped(seq![c] + rest);
            let (html_rest, xml_rest) = (html_escaped(rest), xml_escaped(rest));
            &&& c == '&' ==> html == "&amp;"@ + html_rest && xml == "&amp;"@ + xml_rest
            &&& c == '<' ==> html == "&lt;"@ + html_rest && xml == "&lt;"@ + xml_rest
            &&& c == '>' ==> html == "&gt;"@ + html_rest && xml == "&gt;"@ + xml_rest
            &&& c == '"' ==> html == "&quot;"@ + html_rest && xml == "&quot;"@ + xml_rest
            &&& c == '\'' ==> html == "&#x27;"@ + html_rest && xml == "&apos;"@ + xml_rest
            &&& c != '&' && c != '<' && c != '>' && c != '"' && c != '\'' ==> html == seq![c]
                + html_rest && xml == seq![c] + xml_rest
        }),
{
    assert((seq![c] + rest).skip(1) =~= rest);
}

/// Escaping loses nothing: two texts with the same HTML form are the same.
pub proof fn law_html_escaping_loses_nothing(a: Text, b: Text)
    requires
        html_escaped(a) == html_escaped(b),
    ensures
        a == b,
    decreases a.len(),
{
    lemma_entities();
    if a.len() == 0 || b.len() == 0 {
        assert(html_escaped(a).len() == 0);
        assert(a =~= b);
    } else {
        let s = html_escaped(a);
        let (x, y) = (html_entity(a[0]), html_entity(b[0]));
        assert forall|i: int| 0 <= i < x.len() implies s[i] == x[i] by {}
        assert forall|i: int| 0 <= i < y.len() implies s[i] == y[i] by {}
        assert(s[0] == x[0] && s[0] == y[0]);
        if x.len() > 1 && y.len() > 1 {
            assert(s[1] == x[1] && s[1] == y[1]);
        }
        assert(a[0] == b[0]);
        assert(html_escaped(a.skip(1)) =~= s.skip(x.len() as int));
        assert(html_escaped(b.skip(1)) =~= s.skip(x.len() as int));
        law_html_escaping_loses_nothing(a.skip(1), b.skip(1));
        assert(a =~= seq![a[0]] + a.skip(1));
        assert(b =~= seq![b[0]] + b.skip(1));
    }
}

/// Escaping loses nothing: two texts with the same XML form are the same.
pub proof fn law_xml_escaping_loses_nothing(a: Text, b: Text)
    requires
        xml_escaped(a) == xml_escaped(b),
    ensures
        a == b,
    decreases a.len(),
{
    lemma_entities();
    if a.len() == 0 || b.len() == 0 {
        assert(xml_escaped(a).len() == 0);
        assert(a =~= b);
    } else {
        let s = xml_escaped(a);
        let (x, y) = (xml_entity(a[0]), xml_entity(b[0]));
        assert forall|i: int| 0 <= i < x.len() implies s[i] == x[i] by {}
        assert forall|i: int| 0 <= i < y.len() implies s[i] == y[i] by {}
        assert(s[0] == x[0] && s[0] == y[0]);
        if x.len() > 1 && y.len() > 1 {
            assert(s[1] == x[1] && s[1] == y[1]);
            assert(s[2] == x[2] && s[2] == y[2]);
        }
        assert(a[0] == b[0]);
        assert(xml_escaped(a.skip(1)) =~= s.skip(x.len() as int));
        assert(xml_escaped(b.skip(1)) =~= s.skip(x.len() as int));
        law_xml_escaping_loses_nothing(a.skip(1), b.skip(1));
        assert(a =~= seq![a[0]] + a.skip(1));
        assert(b =~= seq![b[0]] + b.skip(1));
    }
}

} // verus!
