//! The events of the YAML parser for the text of a Dawn file, and the source
//! map built from them.
use vstd::prelude::*;
use yaml_rust2::parser::Event::{
    Alias, DocumentEnd, DocumentStart, MappingEnd, MappingStart, Nothing, Scalar, SequenceEnd, SequenceStart,
    StreamEnd, StreamStart,
};
use yaml_rust2::parser::Parser;
use crate::parse::builder::{
    build_source_map_from_events, events_view, marker_range, spec_build, spec_marker_range, DawnParseDiagnostic,
    EventView, MarkedEvent, YamlEvent,
};
use crate::parse::source_map::{SegmentView, YamlSourceMap, YamlSourceRange};
use crate::diagnostics::TextRange;

verus! {

/// What `yaml_rust2`'s parser yields for `text`, event by event up to (not
/// including) the end of the first document or of the stream: each event
/// with the line (counted from one) and column (counted from zero) of its
/// marker; or the first error's text with the line and column of its marker.
pub uninterp spec fn spec_yaml_marked_events(text: Seq<char>) -> Result<
    Seq<(EventView, usize, usize)>,
    (Seq<char>, usize, usize),
>;

pub open spec fn marked_view(es: Seq<(YamlEvent, usize, usize)>) -> Seq<(EventView, usize, usize)> {
    es.map_values(|e: (YamlEvent, usize, usize)| (e.0@, e.1, e.2))
}

/// `yaml_rust2::parser::Parser::new_from_str` and `Parser::next_token`,
/// called until the end of the first document or of the stream (as
/// `Parser::load` reads one document), that last event left out. The
/// result is the named parser outcome for `text`: the events, each converted
/// variant for variant (a
/// scalar keeps its text; anchors, tags and styles are dropped), with their
/// markers' line and column; or the error's `Display` text with its
/// marker's line and column.
#[verifier::external_body]
fn yaml_marked_events(text: &str) -> (r: Result<Vec<(YamlEvent, usize, usize)>, (String, usize, usize)>)
    ensures
        spec_yaml_marked_events(text@) == match r {
            Ok(es) => Ok(marked_view(es@)),
            Err(e) => Err((e.0@, e.1, e.2)),
        },
{
    let mut parser = Parser::new_from_str(text);
    let mut events = Vec::new();
    loop {
        let (ev, m) = parser.next_token().map_err(|e| (e.to_string(), e.marker().line(), e.marker().col()))?;
        let event = match ev {
            StreamEnd | DocumentEnd => return Ok(events), Nothing => YamlEvent::Nothing,
            StreamStart => YamlEvent::StreamStart, DocumentStart => YamlEvent::DocumentStart, Alias(_) => YamlEvent::Alias,
            Scalar(v, ..) => YamlEvent::Scalar(v), SequenceStart(..) => YamlEvent::SequenceStart, SequenceEnd => YamlEvent::SequenceEnd,
            MappingStart(..) => YamlEvent::MappingStart, MappingEnd => YamlEvent::MappingEnd,
        };
        events.push((event, m.line(), m.col()));
    }
}

/// The events of `es` with their markers.
fn marked_events(es: Vec<(YamlEvent, usize, usize)>) -> (r: Vec<MarkedEvent>)
    ensures
        events_view(r@) == marked_view(es@).map_values(
            |e: (EventView, usize, usize)| (e.0, spec_marker_range(e.1, e.2)),
        ),
{
    let mut es = es;
    let ghost all = es@;
    let mut r: Vec<MarkedEvent> = Vec::new();
    while es.len() > 0
        invariant
            r@.len() + es@.len() == all.len(),
            es@ == all.subrange(r@.len() as int, all.len() as int),
            forall|j: int| 0 <= j < r@.len() ==> (#[trigger] r@[j]).event@ == all[j].0@ && r@[j].line == all[j].1
                && r@[j].col == all[j].2,
        decreases es@.len(),
    {
        let ghost old_es = es@;
        let (event, line, col) = es.remove(0);
        assert(old_es[0] == all[r@.len() as int]);
        r.push(MarkedEvent { event, line, col });
        assert(es@ =~= all.subrange(r@.len() as int, all.len() as int));
    }
    assert(events_view(r@) =~= marked_view(all).map_values(
        |e: (EventView, usize, usize)| (e.0, spec_marker_range(e.1, e.2)),
    ));
    r
}

/// The source map of `text`, or why it has none: the parser's error at its
/// marker, or what building the map from the events found.
pub open spec fn spec_source_map(text: Seq<char>) -> Result<
    Map<Seq<SegmentView>, YamlSourceRange>,
    (Seq<char>, Option<TextRange>),
> {
    match spec_yaml_marked_events(text) {
        Err((m, l, c)) => Err((m, Some(spec_marker_range(l, c)))),
        Ok(es) => spec_build(es.map_values(|e: (EventView, usize, usize)| (e.0, spec_marker_range(e.1, e.2))), 0),
    }
}

/// Parses `text` as YAML and records where each of its nodes is written.
pub fn build_source_map(text: &str) -> (r: Result<YamlSourceMap, DawnParseDiagnostic>)
    ensures
        spec_source_map(text@) matches Ok(m) ==> (r matches Ok(map) && map@ == m),
        spec_source_map(text@) matches Err((msg, range)) ==> (r matches Err(d) && d.message@ == msg && d.range
            == range),
{
    match yaml_marked_events(text) {
        Err((message, line, col)) => Err(DawnParseDiagnostic { message, range: Some(marker_range(line, col)) }),
        Ok(events) => build_source_map_from_events(&marked_events(events)),
    }
}

} // verus!
