//! The timed-text decoder: turns a caption payload into the ordered sequence
//! of caption items, entirely without I/O.
//!
//! The grammar is deliberately small. A cue is a `<text ...>` element; its
//! `start` and `dur` attributes are kept as the literal attribute text (a
//! missing one reads as `0`), and its content is decoded of the common
//! character entities. Other markup is skipped. A cue left unterminated —
//! an open tag without `>`, content without a closing tag, or a closing tag
//! without `>` — is malformed and fails the whole decode.

use vstd::prelude::*;

use crate::error::TranscriptError;
use crate::text::chars_to_string;
use crate::text::occurs_at;
use crate::text::occurs_at_exec;
use crate::text::str_chars;

verus! {

/// One caption item: the cue text and its literal start and duration
/// attribute values, in seconds as the payload wrote them.
#[derive(Debug, Clone)]
pub struct TranscriptItem {
    pub text: String,
    pub start: String,
    pub duration: String,
}

/// The mathematical value of a [`TranscriptItem`].
pub ghost struct TranscriptItemV {
    pub text: Seq<char>,
    pub start: Seq<char>,
    pub duration: Seq<char>,
}

impl View for TranscriptItem {
    type V = TranscriptItemV;

    open spec fn view(&self) -> TranscriptItemV {
        TranscriptItemV { text: self.text@, start: self.start@, duration: self.duration@ }
    }
}

/// The values of a sequence of caption items.
pub open spec fn items_view(s: Seq<TranscriptItem>) -> Seq<TranscriptItemV> {
    Seq::new(s.len(), |i: int| s[i]@)
}

/// The length of the run of characters other than `c` in `h` starting at
/// `i`.
pub open spec fn span_until(h: Seq<char>, i: int, c: char) -> nat
    decreases h.len() - i,
{
    if i < 0 {
        0
    } else if i < h.len() && h[i] != c {
        1 + span_until(h, i + 1, c)
    } else {
        0
    }
}

/// Measures the run of characters other than `c` starting at `i`.
fn span_until_exec(h: &Vec<char>, i: usize, c: char) -> (r: usize)
    requires
        i <= h@.len(),
    ensures
        r == span_until(h@, i as int, c),
        i + r <= h@.len(),
        i + r == h@.len() || h@[(i + r) as int] == c,
{
    let mut j: usize = i;
    while j < h.len() && h[j] != c
        invariant
            i <= j <= h@.len(),
            span_until(h@, i as int, c) == (j - i) + span_until(h@, j as int, c),
        decreases h@.len() - j,
    {
        j = j + 1;
    }
    j - i
}

/// The cue content with the common character entities decoded; unknown
/// entities are left as they stand.
pub open spec fn unescape_from(s: Seq<char>, i: int) -> Seq<char>
    decreases s.len() - i,
{
    if i < 0 || i >= s.len() {
        Seq::empty()
    } else if i + 5 <= s.len() && occurs_at(s, "&amp;"@, i) {
        seq!['&'] + unescape_from(s, i + 5)
    } else if i + 4 <= s.len() && occurs_at(s, "&lt;"@, i) {
        seq!['<'] + unescape_from(s, i + 4)
    } else if i + 4 <= s.len() && occurs_at(s, "&gt;"@, i) {
        seq!['>'] + unescape_from(s, i + 4)
    } else if i + 6 <= s.len() && occurs_at(s, "&quot;"@, i) {
        seq!['"'] + unescape_from(s, i + 6)
    } else if i + 6 <= s.len() && occurs_at(s, "&apos;"@, i) {
        seq!['\''] + unescape_from(s, i + 6)
    } else if i + 5 <= s.len() && occurs_at(s, "&#39;"@, i) {
        seq!['\''] + unescape_from(s, i + 5)
    } else {
        seq![s[i]] + unescape_from(s, i + 1)
    }
}

/// Decodes the common character entities.
fn unescape_exec(s: &Vec<char>) -> (r: Vec<char>)
    ensures
        r@ == unescape_from(s@, 0),
{
    let amp = str_chars("&amp;");
    let lt = str_chars("&lt;");
    let gt = str_chars("&gt;");
    let quot = str_chars("&quot;");
    let apos = str_chars("&apos;");
    let num = str_chars("&#39;");
    let sl: usize = s.len();
    let mut out: Vec<char> = Vec::new();
    let mut i: usize = 0;
    proof {
        assert(out@ + unescape_from(s@, 0) =~= unescape_from(s@, 0));
    }
    while i < sl
        invariant
            sl == s@.len(),
            0 <= i <= sl,
            amp@ == "&amp;"@ && lt@ == "&lt;"@ && gt@ == "&gt;"@ && quot@ == "&quot;"@ && apos@
                == "&apos;"@ && num@ == "&#39;"@,
            unescape_from(s@, 0) == out@ + unescape_from(s@, i as int),
        decreases sl - i,
    {
        proof {
            reveal_strlit("&amp;");
            reveal_strlit("&lt;");
            reveal_strlit("&gt;");
            reveal_strlit("&quot;");
            reveal_strlit("&apos;");
            reveal_strlit("&#39;");
        }
        if 5 <= sl - i && occurs_at_exec(s, &amp, i) {
            out.push('&');
            i = i + 5;
        } else if 4 <= sl - i && occurs_at_exec(s, &lt, i) {
            out.push('<');
            i = i + 4;
        } else if 4 <= sl - i && occurs_at_exec(s, &gt, i) {
            out.push('>');
            i = i + 4;
        } else if 6 <= sl - i && occurs_at_exec(s, &quot, i) {
            out.push('"');
            i = i + 6;
        } else if 6 <= sl - i && occurs_at_exec(s, &apos, i) {
            out.push('\'');
            i = i + 6;
        } else if 5 <= sl - i && occurs_at_exec(s, &num, i) {
            out.push('\'');
            i = i + 5;
        } else {
            out.push(s[i]);
            i = i + 1;
        }
        proof {
            assert(unescape_from(s@, 0) =~= out@ + unescape_from(s@, i as int));
        }
    }
    out
}

/// Whether a cue element opens at `i`: the tag name `text` followed by a
/// delimiter or the end of the document.
pub open spec fn is_cue_open_at(s: Seq<char>, i: int) -> bool {
    occurs_at(s, "<text"@, i) && (i + 5 == s.len() || is_tag_delim(s[i + 5]))
}

/// A character that may follow the tag name.
pub open spec fn is_tag_delim(c: char) -> bool {
    c == ' ' || c == '\t' || c == '\n' || c == '\r' || c == '>' || c == '/'
}

/// The value of the attribute `name` in the attribute region `a`, scanning
/// `name="value"` fields from `p`; `None` when the attribute is absent or
/// the region is not in that shape.
pub open spec fn attr_value_from(a: Seq<char>, p: int, name: Seq<char>) -> Option<Seq<char>>
    decreases a.len() - p,
{
    if p < 0 || p >= a.len() {
        None
    } else if a[p] == ' ' || a[p] == '\t' || a[p] == '\n' || a[p] == '\r' || a[p] == '/' {
        attr_value_from(a, p + 1, name)
    } else {
        let nlen = span_until(a, p, '=');
        if p + nlen >= a.len() {
            None
        } else if p + nlen + 1 < a.len() && a[p + nlen + 1] == '"' {
            let vlen = span_until(a, p + nlen + 2, '"');
            if p + nlen + 2 + vlen >= a.len() {
                None
            } else if a.subrange(p, p + nlen) == name {
                Some(a.subrange(p + nlen + 2, p + nlen + 2 + vlen))
            } else {
                attr_value_from(a, p + nlen + 2 + vlen + 1, name)
            }
        } else {
            None
        }
    }
}

/// The attribute's value, with a missing one reading as `0`.
pub open spec fn attr_or_default(a: Seq<char>, name: Seq<char>) -> Seq<char> {
    match attr_value_from(a, 0, name) {
        Some(v) => v,
        None => "0"@,
    }
}

/// Finds the value of the attribute `name` in the attribute region.
fn attr_value_exec(a: &Vec<char>, name: &Vec<char>) -> (r: Option<Vec<char>>)
    ensures
        match r {
            Some(v) => attr_value_from(a@, 0, name@) == Some(v@),
            None => attr_value_from(a@, 0, name@) is None,
        },
{
    let al: usize = a.len();
    let mut p: usize = 0;
    loop
        invariant
            0 <= p <= al + 1,
            al == a@.len(),
            attr_value_from(a@, 0, name@) == attr_value_from(a@, p as int, name@),
        decreases al + 1 - p,
    {
        if p >= al {
            return None;
        }
        let c = a[p];
        if c == ' ' || c == '\t' || c == '\n' || c == '\r' || c == '/' {
            p = p + 1;
        } else {
            let nlen = span_until_exec(a, p, '=');
            if p + nlen >= al {
                return None;
            }
            if p + nlen + 1 < al && a[p + nlen + 1] == '"' {
                let vlen = span_until_exec(a, p + nlen + 2, '"');
                if p + nlen + 2 + vlen >= al {
                    return None;
                }
                let name_here = nlen == name.len() && occurs_at_exec(a, name, p);
                proof {
                    if nlen != name@.len() {
                        assert(a@.subrange(p as int, p + nlen).len() != name@.len());
                    }
                }
                if name_here {
                    let mut v: Vec<char> = Vec::new();
                    let mut k: usize = p + nlen + 2;
                    let vend: usize = p + nlen + 2 + vlen;
                    while k < vend
                        invariant
                            p + nlen + 2 <= k <= vend <= a@.len(),
                            v@ == a@.subrange((p + nlen + 2) as int, k as int),
                        decreases vend - k,
                    {
                        v.push(a[k]);
                        k = k + 1;
                        proof {
                            assert(v@ =~= a@.subrange((p + nlen + 2) as int, k as int));
                        }
                    }
                    return Some(v);
                }
                p = p + nlen + 2 + vlen + 1;
            } else {
                return None;
            }
        }
    }
}

/// A caption item of given fields.
pub open spec fn cue_item(text: Seq<char>, start: Seq<char>, duration: Seq<char>) -> TranscriptItemV {
    TranscriptItemV { text, start, duration }
}

/// The decode of the document from position `i` on: the sequence of cue
/// items in document order, or nothing when a cue is left unterminated.
pub open spec fn parse_from(s: Seq<char>, i: int) -> Option<Seq<TranscriptItemV>>
    decreases s.len() - i,
{
    if i < 0 || i >= s.len() {
        Some(Seq::empty())
    } else if s[i] != '<' || !is_cue_open_at(s, i) {
        parse_from(s, i + 1)
    } else {
        let ab = i + 5;
        let alen = span_until(s, ab, '>');
        if ab + alen >= s.len() {
            None
        } else {
            let attrs = s.subrange(ab, ab + alen);
            let start_v = attr_or_default(attrs, "start"@);
            let dur_v = attr_or_default(attrs, "dur"@);
            if alen > 0 && s[ab + alen - 1] == '/' {
                match parse_from(s, ab + alen + 1) {
                    None => None,
                    Some(r) => Some(seq![cue_item(Seq::empty(), start_v, dur_v)] + r),
                }
            } else {
                let cb = ab + alen + 1;
                let tlen = span_until(s, cb, '<');
                if cb + tlen >= s.len() {
                    None
                } else if cb + tlen + 1 < s.len() && s[cb + tlen + 1] == '/' {
                    let clen = span_until(s, cb + tlen, '>');
                    if cb + tlen + clen >= s.len() {
                        None
                    } else {
                        match parse_from(s, cb + tlen + clen + 1) {
                            None => None,
                            Some(r) => Some(
                                seq![
                                    cue_item(
                                        unescape_from(s.subrange(cb, cb + tlen), 0),
                                        start_v,
                                        dur_v,
                                    ),
                                ] + r,
                            ),
                        }
                    }
                } else {
                    None
                }
            }
        }
    }
}

/// Copies `h[from..to]` out as a vector.
fn copy_range(h: &Vec<char>, from: usize, to: usize) -> (r: Vec<char>)
    requires
        from <= to <= h@.len(),
    ensures
        r@ == h@.subrange(from as int, to as int),
{
    let mut r: Vec<char> = Vec::new();
    let mut k: usize = from;
    while k < to
        invariant
            from <= k <= to <= h@.len(),
            r@ == h@.subrange(from as int, k as int),
        decreases to - k,
    {
        r.push(h[k]);
        k = k + 1;
        proof {
            assert(r@ =~= h@.subrange(from as int, k as int));
        }
    }
    r
}

/// Decodes a timed-text payload into the ordered sequence of caption items,
/// exactly as [`parse_from`] reads it; a malformed document fails with
/// `XmlParseError`.
#[verifier::rlimit(60)]
pub fn parse_captions(xml: &str) -> (r: Result<Vec<TranscriptItem>, TranscriptError>)
    ensures
        match r {
            Ok(items) => parse_from(xml@, 0) == Some(items_view(items@)),
            Err(e) => parse_from(xml@, 0) is None && e matches TranscriptError::XmlParseError(_),
        },
{
    let h = str_chars(xml);
    let hl: usize = h.len();
    let tag = str_chars("<text");
    let start_name = str_chars("start");
    let dur_name = str_chars("dur");
    let mut items: Vec<TranscriptItem> = Vec::new();
    let mut i: usize = 0;
    proof {
        assert(match parse_from(h@, 0) {
            None => true,
            Some(r) => items_view(items@) + r =~= r,
        });
    }
    while i < hl
        invariant
            hl == h@.len(),
            h@ == xml@,
            0 <= i <= hl,
            tag@ == "<text"@ && start_name@ == "start"@ && dur_name@ == "dur"@,
            match parse_from(h@, i as int) {
                None => parse_from(h@, 0) is None,
                Some(r) => parse_from(h@, 0) == Some(items_view(items@) + r),
            },
        decreases hl - i,
    {
        proof {
            reveal_strlit("<text");
        }
        let cue_here: bool = if h[i] == '<' && 5 <= hl - i && occurs_at_exec(&h, &tag, i) {
            i + 5 == hl || {
                let d = h[i + 5];
                d == ' ' || d == '\t' || d == '\n' || d == '\r' || d == '>' || d == '/'
            }
        } else {
            false
        };
        proof {
            if h@[i as int] == '<' && !(5 <= hl - i) {
                assert(!occurs_at(h@, "<text"@, i as int));
            }
            assert(cue_here == (h@[i as int] == '<' && is_cue_open_at(h@, i as int)));
        }
        if !cue_here {
            i = i + 1;
        } else {
            let ab: usize = i + 5;
            let alen = span_until_exec(&h, ab, '>');
            if ab + alen >= hl {
                return Err(
                    TranscriptError::XmlParseError(
                        String::from_str("unterminated cue open tag"),
                    ),
                );
            }
            let attrs = copy_range(&h, ab, ab + alen);
            let start_val: String = match attr_value_exec(&attrs, &start_name) {
                Some(v) => chars_to_string(&v),
                None => String::from_str("0"),
            };
            let dur_val: String = match attr_value_exec(&attrs, &dur_name) {
                Some(v) => chars_to_string(&v),
                None => String::from_str("0"),
            };
            let ghost start_g = attr_or_default(attrs@, "start"@);
            let ghost dur_g = attr_or_default(attrs@, "dur"@);
            proof {
                assert(start_val@ == start_g && dur_val@ == dur_g);
            }
            if alen > 0 && h[ab + alen - 1] == '/' {
                let item = TranscriptItem {
                    text: String::new(),
                    start: start_val,
                    duration: dur_val,
                };
                proof {
                    assert(item@ == cue_item(Seq::empty(), start_g, dur_g));
                }
                let ghost prev_items = items@;
                items.push(item);
                let ghost oldi = i as int;
                i = ab + alen + 1;
                proof {
                    assert(items@.drop_last() =~= prev_items);
                    assert(items_view(items@.drop_last()) =~= items_view(prev_items));
                    lemma_step_cue(h@, oldi, items@, i as int);
                }
            } else {
                let cb: usize = ab + alen + 1;
                let tlen = span_until_exec(&h, cb, '<');
                if cb + tlen >= hl {
                    return Err(
                        TranscriptError::XmlParseError(
                            String::from_str("cue content without a closing tag"),
                        ),
                    );
                }
                if !(cb + tlen + 1 < hl && h[cb + tlen + 1] == '/') {
                    return Err(
                        TranscriptError::XmlParseError(
                            String::from_str("markup inside cue content"),
                        ),
                    );
                }
                let clen = span_until_exec(&h, cb + tlen, '>');
                if cb + tlen + clen >= hl {
                    return Err(
                        TranscriptError::XmlParseError(
                            String::from_str("unterminated cue closing tag"),
                        ),
                    );
                }
                let content = copy_range(&h, cb, cb + tlen);
                let text_vec = unescape_exec(&content);
                let item = TranscriptItem {
                    text: chars_to_string(&text_vec),
                    start: start_val,
                    duration: dur_val,
                };
                proof {
                    assert(item@ == cue_item(
                        unescape_from(h@.subrange(cb as int, cb + tlen), 0),
                        start_g,
                        dur_g,
                    ));
                }
                let ghost prev_items = items@;
                items.push(item);
                let ghost oldi = i as int;
                i = cb + tlen + clen + 1;
                proof {
                    assert(items@.drop_last() =~= prev_items);
                    assert(items_view(items@.drop_last()) =~= items_view(prev_items));
                    lemma_step_cue(h@, oldi, items@, i as int);
                }
            }
        }
    }
    proof {
        assert(parse_from(h@, hl as int) == Some(Seq::<TranscriptItemV>::empty()));
        assert(items_view(items@) + Seq::<TranscriptItemV>::empty() =~= items_view(items@));
    }
    Ok(items)
}

/// One parsed cue extends the accumulated items by exactly the item the
/// grammar yields at that position.
proof fn lemma_step_cue(s: Seq<char>, i: int, items: Seq<TranscriptItem>, next: int)
    requires
        0 <= i < s.len(),
        s[i] == '<' && is_cue_open_at(s, i),
        ({
            let ab = i + 5;
            let alen = span_until(s, ab, '>');
            &&& ab + alen < s.len()
            &&& items.len() > 0
            &&& ({
                let attrs = s.subrange(ab, ab + alen);
                let start_v = attr_or_default(attrs, "start"@);
                let dur_v = attr_or_default(attrs, "dur"@);
                if alen > 0 && s[ab + alen - 1] == '/' {
                    &&& next == ab + alen + 1
                    &&& items.last()@ == cue_item(Seq::empty(), start_v, dur_v)
                } else {
                    let cb = ab + alen + 1;
                    let tlen = span_until(s, cb, '<');
                    &&& cb + tlen < s.len()
                    &&& cb + tlen + 1 < s.len() && s[cb + tlen + 1] == '/'
                    &&& ({
                        let clen = span_until(s, cb + tlen, '>');
                        &&& cb + tlen + clen < s.len()
                        &&& next == cb + tlen + clen + 1
                        &&& items.last()@ == cue_item(
                            unescape_from(s.subrange(cb, cb + tlen), 0),
                            start_v,
                            dur_v,
                        )
                    })
                }
            })
        }),
        match parse_from(s, i) {
            None => parse_from(s, 0) is None,
            Some(r) => parse_from(s, 0) == Some(items_view(items.drop_last()) + r),
        },
    ensures
        match parse_from(s, next) {
            None => parse_from(s, 0) is None,
            Some(r) => parse_from(s, 0) == Some(items_view(items) + r),
        },
{
    match parse_from(s, next) {
        None => {
            assert(parse_from(s, i) is None);
        },
        Some(r) => {
            assert(parse_from(s, i) == Some(seq![items.last()@] + r));
            assert(items_view(items.drop_last()) + (seq![items.last()@] + r) =~= items_view(items)
                + r);
        },
    }
}


/// The canonical rendering of one caption item as a cue element.
pub open spec fn render_cue(it: TranscriptItemV) -> Seq<char> {
    "<text start=\""@ + it.start + "\" dur=\""@ + it.duration + "\">"@ + it.text + "</text>"@
}

/// The canonical rendering of a sequence of caption items as a timed-text
/// document: their cue elements in order.
pub open spec fn render_items(items: Seq<TranscriptItemV>) -> Seq<char>
    decreases items.len(),
{
    if items.len() == 0 {
        Seq::empty()
    } else {
        render_cue(items[0]) + render_items(items.drop_first())
    }
}

/// An item whose rendering the decoder can read back: the times hold no
/// quote and no `>`, and the text holds no markup and no entity lead-in.
pub open spec fn renderable_item(it: TranscriptItemV) -> bool {
    &&& forall|j: int| 0 <= j < it.start.len() ==> it.start[j] != '"' && it.start[j] != '>'
    &&& forall|j: int| 0 <= j < it.duration.len() ==> it.duration[j] != '"' && it.duration[j]
        != '>'
    &&& forall|j: int| 0 <= j < it.text.len() ==> it.text[j] != '<' && it.text[j] != '&'
}

proof fn lemma_span_value(s: Seq<char>, i: int, c: char, k: int)
    requires
        0 <= i,
        0 <= k,
        i + k < s.len(),
        forall|j: int| i <= j < i + k ==> s[j] != c,
        s[i + k] == c,
    ensures
        span_until(s, i, c) == k,
    decreases k,
{
    if k > 0 {
        lemma_span_value(s, i + 1, c, k - 1);
    }
}

proof fn lemma_unescape_identity(s: Seq<char>, i: int)
    requires
        0 <= i <= s.len(),
        forall|j: int| 0 <= j < s.len() ==> s[j] != '&',
    ensures
        unescape_from(s, i) == s.skip(i),
    decreases s.len() - i,
{
    reveal_strlit("&amp;");
    reveal_strlit("&lt;");
    reveal_strlit("&gt;");
    reveal_strlit("&quot;");
    reveal_strlit("&apos;");
    reveal_strlit("&#39;");
    if i >= s.len() {
        assert(s.skip(i) =~= Seq::<char>::empty());
    } else {
        assert(!occurs_at(s, "&amp;"@, i)) by {
            if occurs_at(s, "&amp;"@, i) {
                assert(s.subrange(i, i + 5)[0] == s[i]);
            }
        }
        assert(!occurs_at(s, "&lt;"@, i)) by {
            if occurs_at(s, "&lt;"@, i) {
                assert(s.subrange(i, i + 4)[0] == s[i]);
            }
        }
        assert(!occurs_at(s, "&gt;"@, i)) by {
            if occurs_at(s, "&gt;"@, i) {
                assert(s.subrange(i, i + 4)[0] == s[i]);
            }
        }
        assert(!occurs_at(s, "&quot;"@, i)) by {
            if occurs_at(s, "&quot;"@, i) {
                assert(s.subrange(i, i + 6)[0] == s[i]);
            }
        }
        assert(!occurs_at(s, "&apos;"@, i)) by {
            if occurs_at(s, "&apos;"@, i) {
                assert(s.subrange(i, i + 6)[0] == s[i]);
            }
        }
        assert(!occurs_at(s, "&#39;"@, i)) by {
            if occurs_at(s, "&#39;"@, i) {
                assert(s.subrange(i, i + 5)[0] == s[i]);
            }
        }
        lemma_unescape_identity(s, i + 1);
        assert(seq![s[i]] + s.skip(i + 1) =~= s.skip(i));
    }
}


proof fn lemma_span_shift(a: Seq<char>, b: Seq<char>, j: int, c: char)
    requires
        0 <= j,
    ensures
        span_until(a + b, a.len() + j, c) == span_until(b, j, c),
    decreases b.len() - j,
{
    let s = a + b;
    if j < b.len() && b[j] != c {
        assert(s[a.len() + j] == b[j]);
        lemma_span_shift(a, b, j + 1, c);
    } else {
        if j < b.len() {
            assert(s[a.len() + j] == b[j]);
        }
    }
}

proof fn lemma_occurs_shift(a: Seq<char>, b: Seq<char>, n: Seq<char>, j: int)
    requires
        0 <= j,
    ensures
        occurs_at(a + b, n, a.len() + j) == occurs_at(b, n, j),
{
    let s = a + b;
    if j + n.len() <= b.len() {
        assert(s.subrange(a.len() + j, a.len() + j + n.len()) =~= b.subrange(j, j + n.len()));
    }
}

proof fn lemma_parse_shift(a: Seq<char>, b: Seq<char>, j: int)
    requires
        0 <= j,
    ensures
        parse_from(a + b, a.len() + j) == parse_from(b, j),
    decreases b.len() - j,
{
    let s = a + b;
    let al = a.len() as int;
    reveal_strlit("<text");
    if j >= b.len() {
    } else {
        assert(s[al + j] == b[j]);
        lemma_occurs_shift(a, b, "<text"@, j);
        if j + 5 < b.len() {
            assert(s[al + j + 5] == b[j + 5]);
        }
        assert(is_cue_open_at(s, al + j) == is_cue_open_at(b, j));
        if s[al + j] != '<' || !is_cue_open_at(s, al + j) {
            lemma_parse_shift(a, b, j + 1);
        } else {
            let ab = j + 5;
            lemma_span_shift(a, b, ab, '>');
            let alen = span_until(b, ab, '>') as int;
            assert((ab + alen >= b.len()) == (al + ab + alen >= s.len()));
            if ab + alen < b.len() {
                assert(s.subrange(al + ab, al + ab + alen) =~= b.subrange(ab, ab + alen));
                if alen > 0 {
                    assert(s[al + ab + alen - 1] == b[ab + alen - 1]);
                }
                if alen > 0 && b[ab + alen - 1] == '/' {
                    lemma_parse_shift(a, b, ab + alen + 1);
                } else {
                    let cb = ab + alen + 1;
                    lemma_span_shift(a, b, cb, '<');
                    let tlen = span_until(b, cb, '<') as int;
                    assert((cb + tlen >= b.len()) == (al + cb + tlen >= s.len()));
                    if cb + tlen < b.len() {
                        if cb + tlen + 1 < b.len() {
                            assert(s[al + cb + tlen + 1] == b[cb + tlen + 1]);
                        }
                        assert((cb + tlen + 1 < b.len() && b[cb + tlen + 1] == '/') == (al + cb
                            + tlen + 1 < s.len() && s[al + cb + tlen + 1] == '/'));
                        if cb + tlen + 1 < b.len() && b[cb + tlen + 1] == '/' {
                            lemma_span_shift(a, b, cb + tlen, '>');
                            let clen = span_until(b, cb + tlen, '>') as int;
                            assert((cb + tlen + clen >= b.len()) == (al + cb + tlen + clen
                                >= s.len()));
                            if cb + tlen + clen < b.len() {
                                assert(s.subrange(al + cb, al + cb + tlen) =~= b.subrange(
                                    cb,
                                    cb + tlen,
                                ));
                                lemma_parse_shift(a, b, cb + tlen + clen + 1);
                            }
                        }
                    }
                }
            }
        }
    }
}

proof fn lemma_attrs_eval(start_v: Seq<char>, dur_v: Seq<char>)
    requires
        forall|j: int| 0 <= j < start_v.len() ==> start_v[j] != '"' && start_v[j] != '>',
        forall|j: int| 0 <= j < dur_v.len() ==> dur_v[j] != '"' && dur_v[j] != '>',
    ensures
        ({
            let attrs = " start=\""@ + start_v + "\" dur=\""@ + dur_v + "\""@;
            &&& attr_value_from(attrs, 0, "start"@) == Some(start_v)
            &&& attr_value_from(attrs, 0, "dur"@) == Some(dur_v)
        }),
{
    reveal_strlit(" start=\"");
    reveal_strlit("\" dur=\"");
    reveal_strlit("\"");
    reveal_strlit("start");
    reveal_strlit("dur");
    let ls = start_v.len() as int;
    let ld = dur_v.len() as int;
    let attrs = " start=\""@ + start_v + "\" dur=\""@ + dur_v + "\""@;
    assert(attrs.len() == 16 + ls + ld);
    assert forall|j: int| 0 <= j < 8 implies attrs[j] == " start=\""@[j] by {}
    assert forall|j: int| 0 <= j < ls implies attrs[8 + j] == start_v[j] by {}
    assert forall|j: int| 0 <= j < 7 implies attrs[8 + ls + j] == "\" dur=\""@[j] by {}
    assert forall|j: int| 0 <= j < ld implies attrs[15 + ls + j] == dur_v[j] by {}
    assert(attrs[15 + ls + ld] == '"');
    assert(attrs[0] == ' ');
    assert(attrs[6] == '=');
    assert(attrs[7] == '"');
    assert(attrs[8 + ls] == '"');
    assert(attrs[9 + ls] == ' ');
    assert(attrs[13 + ls] == '=');
    assert(attrs[14 + ls] == '"');
    lemma_span_value(attrs, 1, '=', 5);
    lemma_span_value(attrs, 8, '"', ls);
    lemma_span_value(attrs, 10 + ls, '=', 3);
    lemma_span_value(attrs, 15 + ls, '"', ld);
    assert(attrs.subrange(1, 6) =~= "start"@);
    assert(attrs.subrange(10 + ls, 13 + ls) =~= "dur"@);
    assert(attrs.subrange(8, 8 + ls) =~= start_v);
    assert(attrs.subrange(15 + ls, 15 + ls + ld) =~= dur_v);
    assert(attr_value_from(attrs, 0, "start"@) == attr_value_from(attrs, 1, "start"@));
    assert(attr_value_from(attrs, 1, "start"@) == Some(start_v));
    assert(attr_value_from(attrs, 0, "dur"@) == attr_value_from(attrs, 1, "dur"@));
    assert(attrs.subrange(1, 6).len() != "dur"@.len());
    assert(attr_value_from(attrs, 1, "dur"@) == attr_value_from(attrs, 9 + ls, "dur"@));
    assert(attr_value_from(attrs, 9 + ls, "dur"@) == attr_value_from(attrs, 10 + ls, "dur"@));
    assert(attr_value_from(attrs, 10 + ls, "dur"@) == Some(dur_v));
}

proof fn lemma_parse_cue(it: TranscriptItemV, rest: Seq<char>)
    requires
        renderable_item(it),
    ensures
        parse_from(render_cue(it) + rest, 0) == match parse_from(
            render_cue(it) + rest,
            render_cue(it).len() as int,
        ) {
            None => None,
            Some(r) => Some(seq![it] + r),
        },
{
    reveal_strlit("<text start=\"");
    reveal_strlit("\" dur=\"");
    reveal_strlit("\">");
    reveal_strlit("</text>");
    reveal_strlit("<text");
    reveal_strlit(" start=\"");
    reveal_strlit("\"");
    let ls = it.start.len() as int;
    let ld = it.duration.len() as int;
    let lt = it.text.len() as int;
    let cue = render_cue(it);
    let s = cue + rest;
    assert(cue.len() == 29 + ls + ld + lt);
    assert forall|j: int| 0 <= j < 13 implies s[j] == "<text start=\""@[j] by {}
    assert forall|j: int| 0 <= j < ls implies s[13 + j] == it.start[j] by {}
    assert forall|j: int| 0 <= j < 7 implies s[13 + ls + j] == "\" dur=\""@[j] by {}
    assert forall|j: int| 0 <= j < ld implies s[20 + ls + j] == it.duration[j] by {}
    assert(s[20 + ls + ld] == '"');
    assert(s[21 + ls + ld] == '>');
    assert forall|j: int| 0 <= j < lt implies s[22 + ls + ld + j] == it.text[j] by {}
    assert forall|j: int| 0 <= j < 7 implies s[22 + ls + ld + lt + j] == "</text>"@[j] by {}
    assert(s.subrange(0, 5) =~= "<text"@);
    assert(is_cue_open_at(s, 0));
    let ab = 5int;
    assert forall|j: int| 5 <= j < 21 + ls + ld implies s[j] != '>' by {
        if 13 <= j < 13 + ls {
            assert(s[j] == it.start[j - 13]);
        } else if 20 + ls <= j < 20 + ls + ld {
            assert(s[j] == it.duration[j - 20 - ls]);
        }
    }
    lemma_span_value(s, 5, '>', 16 + ls + ld);
    let alen = 16 + ls + ld;
    assert(ab + alen < s.len());
    let attrs = s.subrange(5, 21 + ls + ld);
    assert(attrs =~= " start=\""@ + it.start + "\" dur=\""@ + it.duration + "\""@);
    lemma_attrs_eval(it.start, it.duration);
    assert(attr_or_default(attrs, "start"@) == it.start);
    assert(attr_or_default(attrs, "dur"@) == it.duration);
    assert(s[ab + alen - 1] == '"');
    let cb = 22 + ls + ld;
    assert forall|j: int| cb <= j < cb + lt implies s[j] != '<' by {
        assert(s[j] == it.text[j - cb]);
    }
    assert(s[cb + lt] == '<');
    lemma_span_value(s, cb, '<', lt);
    assert(cb + lt < s.len());
    assert(s[cb + lt + 1] == '/');
    assert forall|j: int| cb + lt <= j < cb + lt + 6 implies s[j] != '>' by {}
    assert(s[cb + lt + 6] == '>');
    lemma_span_value(s, cb + lt, '>', 6);
    assert(cb + lt + 6 < s.len());
    assert(cb + lt + 6 + 1 == cue.len());
    assert(s.subrange(cb, cb + lt) =~= it.text);
    lemma_unescape_identity(it.text, 0);
    assert(it.text.skip(0) =~= it.text);
    assert(cue_item(unescape_from(s.subrange(cb, cb + lt), 0), attr_or_default(attrs, "start"@),
        attr_or_default(attrs, "dur"@)) == it);
}

/// Law: the decoder inverts the canonical rendering. For any caption items
/// whose fields a cue can carry — times without a quote or `>`, text
/// without markup or an entity lead-in — decoding the rendered document
/// yields exactly those items, in order; in particular a rendering of no
/// items decodes to the empty sequence.
pub proof fn lemma_decode_render_roundtrip(items: Seq<TranscriptItemV>)
    requires
        forall|i: int| 0 <= i < items.len() ==> renderable_item(#[trigger] items[i]),
    ensures
        parse_from(render_items(items), 0) == Some(items),
    decreases items.len(),
{
    if items.len() == 0 {
        assert(parse_from(render_items(items), 0) == Some(Seq::<TranscriptItemV>::empty()));
        assert(Seq::<TranscriptItemV>::empty() =~= items);
    } else {
        let cue = render_cue(items[0]);
        let rest = render_items(items.drop_first());
        lemma_decode_render_roundtrip(items.drop_first());
        lemma_parse_shift(cue, rest, 0);
        assert(parse_from(cue + rest, cue.len() as int) == Some(items.drop_first()));
        lemma_parse_cue(items[0], rest);
        assert(seq![items[0]] + items.drop_first() =~= items);
    }
}


} // verus!
