//! XML format adapter: URLs live as the text of `<url>` elements. The
//! XML event stream is the work of `quick_xml`; it is named by
//! [`xml_events`] and the scan for `<url>` texts is verified.

use vstd::prelude::*;
use quick_xml::events::Event;
use crate::text::str_eq;

verus! {

/// One event of a parsed XML document, reduced to what the scan reads:
/// an element start carries its name, a text node its unescaped text,
/// and every other event collapses to `Other`.
pub enum XmlEvent {
    Start(String),
    Text(String),
    Other,
}

/// The mathematical image of one [`XmlEvent`].
pub enum XmlEventV {
    Start(Seq<char>),
    Text(Seq<char>),
    Other,
}

impl View for XmlEvent {
    type V = XmlEventV;

    open spec fn view(&self) -> XmlEventV {
        match self {
            XmlEvent::Start(name) => XmlEventV::Start(name@),
            XmlEvent::Text(text) => XmlEventV::Text(text@),
            XmlEvent::Other => XmlEventV::Other,
        }
    }
}

impl DeepView for XmlEvent {
    type V = XmlEventV;

    open spec fn deep_view(&self) -> XmlEventV {
        self.view()
    }
}

/// The event stream of the XML document `content`, in document order,
/// reduced as [`XmlEvent`] describes; the stream ends at the end of
/// input or at the first unrecoverable reader error.
pub uninterp spec fn xml_events(content: Seq<char>) -> Seq<XmlEventV>;

/// Relies on quick_xml's `Reader::read_event`, with text trimming on,
/// and `BytesText::unescape`: the document's events in order; a text
/// node that fails to unescape carries the empty string.
#[verifier::external_body]
fn read_xml_events(content: &str) -> (events: Vec<XmlEvent>)
    ensures
        events.deep_view() == xml_events(content@),
{
    let mut reader = quick_xml::Reader::from_str(content);
    reader.config_mut().trim_text(true);
    let mut events = Vec::new();
    loop {
        match reader.read_event() {
            Ok(Event::Start(e)) => events.push(XmlEvent::Start(String::from_utf8_lossy(e.name().as_ref()).into_owned())),
            Ok(Event::Text(t)) => events.push(XmlEvent::Text(t.unescape().unwrap_or_default().into_owned())),
            Ok(Event::Eof) => break,
            Ok(_) => events.push(XmlEvent::Other),
            Err(_) => break,
        }
    }
    events
}

/// The URL texts of an event stream: each `url` element start
/// contributes the text of the event immediately after it (nothing when
/// that event is no text node or the stream ends), and the scan
/// resumes after that following event.
pub open spec fn urls_in_events(events: Seq<XmlEventV>) -> Seq<Seq<char>>
    decreases events.len(),
{
    if events.len() == 0 {
        seq![]
    } else {
        match events[0] {
            XmlEventV::Start(name) => if name == "url"@ {
                if events.len() == 1 {
                    seq![]
                } else {
                    match events[1] {
                        XmlEventV::Text(text) => seq![text] + urls_in_events(events.skip(2)),
                        _ => urls_in_events(events.skip(2)),
                    }
                }
            } else {
                urls_in_events(events.skip(1))
            },
            _ => urls_in_events(events.skip(1)),
        }
    }
}

/// The verified tail of XML parsing: scans the event stream for `url`
/// element starts and collects each one's immediately following text.
pub fn urls_from_xml_events(events: &Vec<XmlEvent>) -> (urls: Vec<String>)
    ensures
        urls.deep_view() == urls_in_events(events.deep_view()),
{
    let ghost dv = events.deep_view();
    let n = events.len();
    let mut out: Vec<String> = Vec::new();
    let mut i: usize = 0;
    proof {
        assert(dv.skip(0) =~= dv);
        assert(out.deep_view() =~= Seq::<Seq<char>>::empty());
        assert(Seq::<Seq<char>>::empty() + urls_in_events(dv) =~= urls_in_events(dv));
    }
    while i < n
        invariant
            n == events@.len(),
            i <= n,
            dv == events.deep_view(),
            out.deep_view() + urls_in_events(dv.skip(i as int)) == urls_in_events(dv),
        decreases n - i,
    {
        let ghost rest = dv.skip(i as int);
        let ghost before = out.deep_view();
        proof {
            assert(forall|m: int| 0 <= m < rest.len() ==> rest[m] == dv[m + i]);
            assert(rest.skip(1) =~= dv.skip(i + 1));
            if i + 2 <= n {
                assert(rest.skip(2) =~= dv.skip(i + 2));
            }
        }
        let mut step: usize = 1;
        match &events[i] {
            XmlEvent::Start(name) => {
                proof {
                    assert(events@[i as int] == XmlEvent::Start(*name));
                    assert(rest[0] == XmlEventV::Start(name@));
                }
                if str_eq(name.as_str(), "url") {
                    if i + 1 < n {
                        match &events[i + 1] {
                            XmlEvent::Text(text) => {
                                proof {
                                    assert(events@[i + 1] == XmlEvent::Text(*text));
                                    assert(rest[1] == XmlEventV::Text(text@));
                                }
                                out.push(text.clone());
                                proof {
                                    assert(out.deep_view() =~= before + seq![text@]);
                                    assert((before + seq![text@]) + urls_in_events(dv.skip(i + 2))
                                        =~= before + (seq![text@] + urls_in_events(dv.skip(i + 2))));
                                }
                            },
                            _ => {
                                proof {
                                    assert(!(rest[1] is Text));
                                }
                            },
                        }
                        step = 2;
                    } else {
                        proof {
                            assert(rest.len() == 1);
                            assert(urls_in_events(rest) =~= Seq::<Seq<char>>::empty());
                            assert(dv.skip(i + 1).len() == 0);
                            assert(urls_in_events(dv.skip(i + 1)) =~= Seq::<Seq<char>>::empty());
                        }
                    }
                }
            },
            _ => {
                proof {
                    assert(!(rest[0] is Start));
                }
            },
        }
        i += step;
    }
    proof {
        assert(dv.skip(n as int).len() == 0);
        assert(urls_in_events(dv.skip(n as int)) =~= Seq::<Seq<char>>::empty());
        assert(out.deep_view() + Seq::<Seq<char>>::empty() =~= out.deep_view());
    }
    out
}

/// Parses XML content and extracts the text of each `<url>` element.
/// Malformed XML degrades to whatever prefix of the document the
/// reader could walk, never an error.
pub fn parser_xml(content: &str) -> (urls: Vec<String>)
    ensures
        urls.deep_view() == urls_in_events(xml_events(content@)),
{
    let events = read_xml_events(content);
    urls_from_xml_events(&events)
}

} // verus!
