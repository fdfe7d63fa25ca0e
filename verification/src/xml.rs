use vstd::prelude::*;

use quick_xml::events::Event;
use quick_xml::Reader;

verus! {

// ---------------------------------------------------------------------------
// Descriptor markup, seen as a stream of events.
//
// Parsing the raw markup bytes is delegated to quick_xml. The event sequence
// that a whole-document read yields for given bytes is a fixed function of
// those bytes, named by `xml_events` below; everything built on top of the
// event stream (well-formedness, reference texts, element counts) is
// verified here.
// ---------------------------------------------------------------------------

/// One markup event, with the element name or text content it carries.
pub enum XmlEvent {
    Open(Vec<u8>),
    Close(Vec<u8>),
    Empty(Vec<u8>),
    Text(Vec<u8>),
    Misc,
    Eof,
    Fail,
}

// Event kind codes used by the spec-level event stream.
pub const K_OPEN: u8 = 0;
pub const K_CLOSE: u8 = 1;
pub const K_EMPTY: u8 = 2;
pub const K_TEXT: u8 = 3;
pub const K_MISC: u8 = 4;
pub const K_EOF: u8 = 5;
pub const K_FAIL: u8 = 6;

/// The kind and payload of an exec event.
pub open spec fn ev_pair(e: XmlEvent) -> (u8, Seq<u8>) {
    match e {
        XmlEvent::Open(n) => (K_OPEN, n@),
        XmlEvent::Close(n) => (K_CLOSE, n@),
        XmlEvent::Empty(n) => (K_EMPTY, n@),
        XmlEvent::Text(t) => (K_TEXT, t@),
        XmlEvent::Misc => (K_MISC, Seq::<u8>::empty()),
        XmlEvent::Eof => (K_EOF, Seq::<u8>::empty()),
        XmlEvent::Fail => (K_FAIL, Seq::<u8>::empty()),
    }
}

pub open spec fn pairs_of(evs: Seq<XmlEvent>) -> Seq<(u8, Seq<u8>)> {
    evs.map_values(|e: XmlEvent| ev_pair(e))
}

/// The whole event stream (kind, payload) of a document: opens, closes,
/// self-closing elements, texts, and other markup, ending at the first
/// end-of-input or parse-error event.
pub uninterp spec fn xml_events(bytes: Seq<u8>) -> Seq<(u8, Seq<u8>)>;

/// Reads the whole event stream of a document.
///
/// Relies on quick_xml::Reader: reading every event of a document through a
/// fresh reader is deterministic, so the stream is a function of the
/// document bytes alone.
#[verifier::external_body]
pub(crate) fn read_all_events(bytes: &[u8]) -> (evs: Vec<XmlEvent>)
    ensures
        pairs_of(evs@) == xml_events(bytes@),
{
    let mut r = Reader::from_reader(bytes);
    let mut evs = vec![];
    loop {
        let Ok(ev) = r.read_event() else { evs.push(XmlEvent::Fail); return evs; };
        let e = match ev {
            Event::Start(s) => XmlEvent::Open(s.name().0.into()),
            Event::End(s) => XmlEvent::Close(s.name().0.into()),
            Event::Empty(s) => XmlEvent::Empty(s.name().0.into()),
            Event::Text(t) => XmlEvent::Text(t.as_bytes().into()),
            Event::Eof => { evs.push(XmlEvent::Eof); return evs; },
            _ => XmlEvent::Misc,
        };
        evs.push(e);
    }
}

// ---------------------------------------------------------------------------
// Well-formedness: every close matches the innermost open, and the stream
// ends cleanly at end-of-input with no element left open.
// ---------------------------------------------------------------------------

pub open spec fn wf_from(p: Seq<(u8, Seq<u8>)>, i: int, stack: Seq<Seq<u8>>) -> bool
    decreases p.len() - i,
{
    if i < 0 || i >= p.len() {
        false
    } else {
        let k = p[i].0;
        if k == K_EOF {
            stack.len() == 0 && i == p.len() - 1
        } else if k == K_FAIL {
            false
        } else if k == K_OPEN {
            wf_from(p, i + 1, stack.push(p[i].1))
        } else if k == K_CLOSE {
            stack.len() > 0 && stack.last() == p[i].1 && wf_from(p, i + 1, stack.drop_last())
        } else {
            wf_from(p, i + 1, stack)
        }
    }
}

/// The document's markup is well formed.
pub open spec fn xml_wf(p: Seq<(u8, Seq<u8>)>) -> bool {
    wf_from(p, 0, Seq::<Seq<u8>>::empty())
}

/// Compares two byte strings.
pub fn bytes_eq(a: &[u8], b: &[u8]) -> (r: bool)
    ensures
        r == (a@ == b@),
{
    if a.len() != b.len() {
        return false;
    }
    let n = a.len();
    let mut i: usize = 0;
    while i < n
        invariant
            0 <= i <= n,
            n == a@.len() == b@.len(),
            forall|j: int| 0 <= j < i ==> a@[j] == b@[j],
        decreases n - i,
    {
        if a[i] != b[i] {
            return false;
        }
        i = i + 1;
    }
    proof {
        assert(a@ =~= b@);
    }
    true
}

/// Decides `xml_wf` for an event stream.
pub fn xml_well_formed(evs: &Vec<XmlEvent>) -> (b: bool)
    ensures
        b == xml_wf(pairs_of(evs@)),
{
    let ghost p = pairs_of(evs@);
    let mut stack: Vec<Vec<u8>> = Vec::new();
    let mut i: usize = 0;
    proof {
        assert(stack.deep_view() =~~= Seq::<Seq<u8>>::empty());
        assert(p.len() == evs@.len());
    }
    loop
        invariant
            0 <= i <= evs@.len(),
            p == pairs_of(evs@),
            p.len() == evs@.len(),
            xml_wf(p) == wf_from(p, i as int, stack.deep_view()),
        decreases evs@.len() - i,
    {
        if i == evs.len() {
            return false;
        }
        proof {
            assert(p[i as int] == ev_pair(evs@[i as int]));
        }
        match &evs[i] {
            XmlEvent::Open(n) => {
                let name = copy_bytes(n);
                let ghost old_stack = stack.deep_view();
                stack.push(name);
                proof {
                    assert(stack.deep_view() =~~= old_stack.push(p[i as int].1));
                }
            },
            XmlEvent::Close(n) => {
                let ghost pre_stack = stack.deep_view();
                let top = match stack.pop() {
                    Some(t) => t,
                    None => {
                        proof {
                            assert(pre_stack.len() == 0);
                        }
                        return false;
                    },
                };
                proof {
                    assert(pre_stack =~~= stack.deep_view().push(top@));
                    assert(pre_stack.last() == top@);
                    assert(pre_stack.drop_last() =~~= stack.deep_view());
                }
                if !bytes_eq(top.as_slice(), n.as_slice()) {
                    return false;
                }
            },
            XmlEvent::Empty(_) => {},
            XmlEvent::Text(_) => {},
            XmlEvent::Misc => {},
            XmlEvent::Eof => {
                let empty = stack.len() == 0;
                let at_end = i == evs.len() - 1;
                proof {
                    assert(stack.deep_view().len() == stack@.len());
                }
                return empty && at_end;
            },
            XmlEvent::Fail => {
                return false;
            },
        }
        i = i + 1;
    }
}

/// Copies a byte string.
pub fn copy_bytes(v: &Vec<u8>) -> (r: Vec<u8>)
    ensures
        r@ == v@,
{
    let mut out: Vec<u8> = Vec::new();
    let mut i: usize = 0;
    while i < v.len()
        invariant
            0 <= i <= v@.len(),
            out@ =~= v@.take(i as int),
        decreases v@.len() - i,
    {
        out.push(v[i]);
        proof {
            assert(out@ =~= v@.take(i + 1));
        }
        i = i + 1;
    }
    proof {
        assert(v@.take(v@.len() as int) =~= v@);
    }
    out
}

// ---------------------------------------------------------------------------
// Reference texts and element counts.
// ---------------------------------------------------------------------------

/// The texts of the leaf elements named `name`: for each `<name>text</name>`
/// (or `<name></name>`, whose text is empty) the text between the tags, in
/// document order.
pub open spec fn leaf_texts_from(p: Seq<(u8, Seq<u8>)>, i: int, name: Seq<u8>) -> Seq<Seq<u8>>
    decreases p.len() - i,
{
    if i < 0 || i >= p.len() {
        Seq::<Seq<u8>>::empty()
    } else if p[i].0 == K_OPEN && p[i].1 == name {
        if i + 1 < p.len() && p[i + 1].0 == K_CLOSE && p[i + 1].1 == name {
            seq![Seq::<u8>::empty()] + leaf_texts_from(p, i + 2, name)
        } else if i + 2 < p.len() && p[i + 1].0 == K_TEXT && p[i + 2].0 == K_CLOSE && p[i + 2].1
            == name {
            seq![p[i + 1].1] + leaf_texts_from(p, i + 3, name)
        } else {
            leaf_texts_from(p, i + 1, name)
        }
    } else {
        leaf_texts_from(p, i + 1, name)
    }
}

pub open spec fn leaf_texts(p: Seq<(u8, Seq<u8>)>, name: Seq<u8>) -> Seq<Seq<u8>> {
    leaf_texts_from(p, 0, name)
}

/// Collects the texts of the leaf elements named `name`.
pub fn collect_leaf_texts(evs: &Vec<XmlEvent>, name: &[u8]) -> (r: Vec<Vec<u8>>)
    ensures
        r.deep_view() == leaf_texts(pairs_of(evs@), name@),
{
    let ghost p = pairs_of(evs@);
    let mut out: Vec<Vec<u8>> = Vec::new();
    let mut i: usize = 0;
    proof {
        assert(out.deep_view() =~~= Seq::<Seq<u8>>::empty());
        assert(p.len() == evs@.len());
    }
    while i < evs.len()
        invariant
            0 <= i <= evs@.len(),
            p == pairs_of(evs@),
            p.len() == evs@.len(),
            leaf_texts(p, name@) == out.deep_view() + leaf_texts_from(p, i as int, name@),
        decreases evs@.len() - i,
    {
        proof {
            assert(p[i as int] == ev_pair(evs@[i as int]));
        }
        let mut advance: usize = 1;
        match &evs[i] {
            XmlEvent::Open(n) => {
                if bytes_eq(n.as_slice(), name) {
                    if i + 1 < evs.len() {
                        proof {
                            assert(p[i + 1] == ev_pair(evs@[i + 1]));
                        }
                        match &evs[i + 1] {
                            XmlEvent::Close(m) => {
                                if bytes_eq(m.as_slice(), name) {
                                    let ghost old_out = out.deep_view();
                                    out.push(Vec::new());
                                    proof {
                                        assert(out.deep_view() =~~= old_out.push(
                                            Seq::<u8>::empty(),
                                        ));
                                    }
                                    advance = 2;
                                }
                            },
                            XmlEvent::Text(t) => {
                                if i + 2 < evs.len() {
                                    proof {
                                        assert(p[i + 2] == ev_pair(evs@[i + 2]));
                                    }
                                    match &evs[i + 2] {
                                        XmlEvent::Close(m) => {
                                            if bytes_eq(m.as_slice(), name) {
                                                let text = copy_bytes(t);
                                                let ghost old_out = out.deep_view();
                                                out.push(text);
                                                proof {
                                                    assert(out.deep_view() =~~= old_out.push(
                                                        p[i + 1].1,
                                                    ));
                                                }
                                                advance = 3;
                                            }
                                        },
                                        _ => {},
                                    }
                                }
                            },
                            _ => {},
                        }
                    }
                }
            },
            _ => {},
        }
        i = i + advance;
    }
    out
}

/// How many elements named `name` the stream opens (as `<name>` or `<name/>`).
pub open spec fn count_named_from(p: Seq<(u8, Seq<u8>)>, i: int, name: Seq<u8>) -> int
    decreases p.len() - i,
{
    if i < 0 || i >= p.len() {
        0
    } else {
        (if (p[i].0 == K_OPEN || p[i].0 == K_EMPTY) && p[i].1 == name {
            1int
        } else {
            0int
        }) + count_named_from(p, i + 1, name)
    }
}

pub open spec fn count_named(p: Seq<(u8, Seq<u8>)>, name: Seq<u8>) -> int {
    count_named_from(p, 0, name)
}

pub proof fn lemma_count_named_bound(p: Seq<(u8, Seq<u8>)>, i: int, name: Seq<u8>)
    requires
        0 <= i <= p.len(),
    ensures
        0 <= count_named_from(p, i, name) <= p.len() - i,
    decreases p.len() - i,
{
    if i < p.len() {
        lemma_count_named_bound(p, i + 1, name);
    }
}

/// Counts the elements named `name`.
pub fn count_named_elements(evs: &Vec<XmlEvent>, name: &[u8]) -> (r: usize)
    ensures
        r == count_named(pairs_of(evs@), name@),
{
    let ghost p = pairs_of(evs@);
    let mut count: usize = 0;
    let mut i: usize = 0;
    proof {
        assert(p.len() == evs@.len());
        lemma_count_named_bound(p, 0, name@);
    }
    while i < evs.len()
        invariant
            0 <= i <= evs@.len(),
            p == pairs_of(evs@),
            p.len() == evs@.len(),
            count_named(p, name@) == count + count_named_from(p, i as int, name@),
            count <= i,
        decreases evs@.len() - i,
    {
        proof {
            assert(p[i as int] == ev_pair(evs@[i as int]));
            lemma_count_named_bound(p, i + 1, name@);
        }
        let hit = match &evs[i] {
            XmlEvent::Open(n) => bytes_eq(n.as_slice(), name),
            XmlEvent::Empty(n) => bytes_eq(n.as_slice(), name),
            _ => false,
        };
        if hit {
            count = count + 1;
        }
        i = i + 1;
    }
    count
}

} // verus!
