//! Building the source map of a YAML document from the events of a YAML
//! parser: every node's path is mapped to where its value starts, and every
//! mapping entry's path also to where its key starts.
use vstd::prelude::*;
use crate::diagnostics::{TextPosition, TextRange};
use crate::parse::source_map::{
    SegmentView, YamlPath, YamlSourceMap, YamlSourceRange, map_insert_key, map_insert_value,
};

verus! {

/// The events of a YAML parser, as the source map reads them.
#[derive(Debug, Clone, PartialEq, Eq)]
pub enum YamlEvent {
    Nothing,
    StreamStart,
    StreamEnd,
    DocumentStart,
    DocumentEnd,
    Alias,
    Scalar(String),
    SequenceStart,
    SequenceEnd,
    MappingStart,
    MappingEnd,
}

pub enum EventView {
    Nothing,
    StreamStart,
    StreamEnd,
    DocumentStart,
    DocumentEnd,
    Alias,
    Scalar(Seq<char>),
    SequenceStart,
    SequenceEnd,
    MappingStart,
    MappingEnd,
}

impl View for YamlEvent {
    type V = EventView;

    open spec fn view(&self) -> EventView {
        match self {
            YamlEvent::Nothing => EventView::Nothing,
            YamlEvent::StreamStart => EventView::StreamStart,
            YamlEvent::StreamEnd => EventView::StreamEnd,
            YamlEvent::DocumentStart => EventView::DocumentStart,
            YamlEvent::DocumentEnd => EventView::DocumentEnd,
            YamlEvent::Alias => EventView::Alias,
            YamlEvent::Scalar(s) => EventView::Scalar(s@),
            YamlEvent::SequenceStart => EventView::SequenceStart,
            YamlEvent::SequenceEnd => EventView::SequenceEnd,
            YamlEvent::MappingStart => EventView::MappingStart,
            YamlEvent::MappingEnd => EventView::MappingEnd,
        }
    }
}

/// An event and where the parser was when it emitted it: a line counted from
/// one and a column counted from zero.
#[derive(Debug, Clone)]
pub struct MarkedEvent {
    pub event: YamlEvent,
    pub line: usize,
    pub col: usize,
}

/// An error found while reading a Dawn file.
#[derive(Debug, Clone)]
pub struct DawnParseDiagnostic {
    pub message: String,
    pub range: Option<TextRange>,
}

pub open spec fn saturating_add_u32(a: u32, b: u32) -> u32 {
    if a + b <= u32::MAX {
        (a + b) as u32
    } else {
        u32::MAX
    }
}

/// The one-character range at a parser mark.
pub open spec fn spec_marker_range(line: usize, col: usize) -> TextRange {
    let l = (if line >= 1 {
        (line - 1) as usize
    } else {
        0usize
    }) as u32;
    let c = col as u32;
    TextRange {
        start: TextPosition { line: l, character: c },
        end: TextPosition { line: l, character: saturating_add_u32(c, 1) },
    }
}

/// The one-character range at a parser mark: `line` counts from one, `col`
/// from zero.
pub fn marker_range(line: usize, col: usize) -> (r: TextRange)
    ensures
        r == spec_marker_range(line, col),
{
    let l = (if line >= 1 {
        line - 1
    } else {
        0
    }) as u32;
    let c = col as u32;
    let end = if c < u32::MAX {
        c + 1
    } else {
        u32::MAX
    };
    TextRange { start: TextPosition { line: l, character: c }, end: TextPosition { line: l, character: end } }
}

/// The one-character range at the location of a YAML error, when the error
/// has one; both `line` and `column` count from one.
pub fn yaml_error_range(location: Option<(usize, usize)>) -> (r: Option<TextRange>)
    ensures
        location is None ==> r is None,
        location matches Some((line, column)) ==> r == Some(
            spec_marker_range(
                line,
                if column >= 1 {
                    (column - 1) as usize
                } else {
                    0
                },
            ),
        ),
{
    match location {
        None => None,
        Some((line, column)) => {
            let col = if column >= 1 {
                column - 1
            } else {
                0
            };
            Some(marker_range(line, col))
        },
    }
}

pub open spec fn events_view(events: Seq<MarkedEvent>) -> Seq<(EventView, TextRange)> {
    events.map_values(|e: MarkedEvent| (e.event@, spec_marker_range(e.line, e.col)))
}

/// What reading a node, or the rest of a mapping or sequence, gives: the
/// position after it, the map so far and the node's range; or an error
/// message and where it is.
pub enum NodeOutcome {
    Parsed(int, Map<Seq<SegmentView>, YamlSourceRange>, TextRange),
    Failed(Seq<char>, Option<TextRange>),
}

pub open spec fn no_range() -> TextRange {
    TextRange { start: TextPosition { line: 0, character: 0 }, end: TextPosition { line: 0, character: 0 } }
}

pub open spec fn end_of_events_message() -> Seq<char> {
    "unexpected end of YAML events"@
}

/// Reading the node whose first event is at `c`, for the path `path`.
pub open spec fn spec_node(
    ev: Seq<(EventView, TextRange)>,
    c: int,
    path: Seq<SegmentView>,
    m: Map<Seq<SegmentView>, YamlSourceRange>,
) -> NodeOutcome
    decreases ev.len() - c, 0int,
{
    if c < 0 || c >= ev.len() {
        NodeOutcome::Failed(end_of_events_message(), None)
    } else {
        let range = ev[c].1;
        let m1 = map_insert_value(m, path, range);
        match ev[c].0 {
            EventView::Scalar(_) => NodeOutcome::Parsed(c + 1, m1, range),
            EventView::Alias => NodeOutcome::Parsed(c + 1, m1, range),
            EventView::MappingStart => match spec_entries(ev, c + 1, path, m1) {
                NodeOutcome::Parsed(c2, m2, _) => NodeOutcome::Parsed(c2, m2, range),
                NodeOutcome::Failed(msg, r) => NodeOutcome::Failed(msg, r),
            },
            EventView::SequenceStart => match spec_items(ev, c + 1, path, 0, m1) {
                NodeOutcome::Parsed(c2, m2, _) => NodeOutcome::Parsed(c2, m2, range),
                NodeOutcome::Failed(msg, r) => NodeOutcome::Failed(msg, r),
            },
            _ => NodeOutcome::Failed("unexpected YAML parser event"@, Some(range)),
        }
    }
}

/// Reading the entries of a mapping from `c` to its end.
pub open spec fn spec_entries(
    ev: Seq<(EventView, TextRange)>,
    c: int,
    path: Seq<SegmentView>,
    m: Map<Seq<SegmentView>, YamlSourceRange>,
) -> NodeOutcome
    decreases ev.len() - c, 1int,
{
    if c < 0 || c >= ev.len() {
        NodeOutcome::Failed(end_of_events_message(), None)
    } else {
        match ev[c].0 {
            EventView::MappingEnd => NodeOutcome::Parsed(c + 1, m, no_range()),
            EventView::Scalar(key) => {
                let child = path.push(SegmentView::Field(key));
                match spec_node(ev, c + 1, child, m) {
                    NodeOutcome::Parsed(c2, m2, value_range) => if c2 <= c || c2 > ev.len() {
                        NodeOutcome::Failed(end_of_events_message(), None)
                    } else {
                        spec_entries(
                            ev,
                            c2,
                            path,
                            map_insert_value(map_insert_key(m2, child, ev[c].1), child, value_range),
                        )
                    },
                    NodeOutcome::Failed(msg, r) => NodeOutcome::Failed(msg, r),
                }
            },
            _ => NodeOutcome::Failed("mapping keys must be scalars"@, Some(ev[c].1)),
        }
    }
}

/// Reading the items of a sequence from `c` to its end, the next one at
/// `index`.
pub open spec fn spec_items(
    ev: Seq<(EventView, TextRange)>,
    c: int,
    path: Seq<SegmentView>,
    index: nat,
    m: Map<Seq<SegmentView>, YamlSourceRange>,
) -> NodeOutcome
    decreases ev.len() - c, 1int,
{
    if 0 <= c < ev.len() && ev[c].0 is SequenceEnd {
        NodeOutcome::Parsed(c + 1, m, no_range())
    } else if c < 0 || c >= ev.len() {
        NodeOutcome::Failed(end_of_events_message(), None)
    } else {
        match spec_node(ev, c, path.push(SegmentView::Index(index as usize)), m) {
            NodeOutcome::Parsed(c2, m2, _) => if c2 <= c || c2 > ev.len() {
                NodeOutcome::Failed(end_of_events_message(), None)
            } else {
                spec_items(ev, c2, path, index + 1, m2)
            },
            NodeOutcome::Failed(msg, r) => NodeOutcome::Failed(msg, r),
        }
    }
}

/// The source map of a document given by its events from `c` on: stream and
/// document starts are skipped, and the first node is the root.
pub open spec fn spec_build(ev: Seq<(EventView, TextRange)>, c: int) -> Result<
    Map<Seq<SegmentView>, YamlSourceRange>,
    (Seq<char>, Option<TextRange>),
>
    decreases ev.len() - c,
{
    if c < 0 || c >= ev.len() {
        Ok(Map::empty())
    } else {
        match ev[c].0 {
            EventView::StreamStart => spec_build(ev, c + 1),
            EventView::DocumentStart => spec_build(ev, c + 1),
            EventView::StreamEnd => Ok(Map::empty()),
            EventView::DocumentEnd => Ok(Map::empty()),
            _ => match spec_node(ev, c, Seq::empty(), Map::empty()) {
                NodeOutcome::Parsed(_, m, _) => Ok(m),
                NodeOutcome::Failed(msg, r) => Err((msg, r)),
            },
        }
    }
}

fn end_of_events() -> (d: DawnParseDiagnostic)
    ensures
        d.message@ == end_of_events_message(),
        d.range is None,
{
    DawnParseDiagnostic { message: String::from_str("unexpected end of YAML events"), range: None }
}

fn unexpected_event(range: TextRange) -> (d: DawnParseDiagnostic)
    ensures
        d.message@ == "unexpected YAML parser event"@,
        d.range == Some(range),
{
    DawnParseDiagnostic { message: String::from_str("unexpected YAML parser event"), range: Some(range) }
}

fn non_scalar_key(range: TextRange) -> (d: DawnParseDiagnostic)
    ensures
        d.message@ == "mapping keys must be scalars"@,
        d.range == Some(range),
{
    DawnParseDiagnostic { message: String::from_str("mapping keys must be scalars"), range: Some(range) }
}

/// The outcome of a whole node, given that of its entries or items.
pub open spec fn wrap_outcome(o: NodeOutcome, range: TextRange) -> NodeOutcome {
    match o {
        NodeOutcome::Parsed(c, m, _) => NodeOutcome::Parsed(c, m, range),
        NodeOutcome::Failed(msg, r) => NodeOutcome::Failed(msg, r),
    }
}

pub open spec fn outcome_matches(
    o: NodeOutcome,
    r: Result<TextRange, DawnParseDiagnostic>,
    cursor: int,
    map: Map<Seq<SegmentView>, YamlSourceRange>,
) -> bool {
    match o {
        NodeOutcome::Parsed(c, m, range) => r == Ok::<TextRange, DawnParseDiagnostic>(range) && cursor == c && map
            == m,
        NodeOutcome::Failed(msg, range) => r matches Err(d) && d.message@ == msg && d.range == range,
    }
}

fn is_mapping_end(events: &Vec<MarkedEvent>, cursor: usize) -> (b: bool)
    ensures
        b == (cursor < events@.len() && events@[cursor as int].event@ is MappingEnd),
{
    cursor < events.len() && match events[cursor].event {
        YamlEvent::MappingEnd => true,
        _ => false,
    }
}

fn is_sequence_end(events: &Vec<MarkedEvent>, cursor: usize) -> (b: bool)
    ensures
        b == (cursor < events@.len() && events@[cursor as int].event@ is SequenceEnd),
{
    cursor < events.len() && match events[cursor].event {
        YamlEvent::SequenceEnd => true,
        _ => false,
    }
}

/// Reads the node at `*cursor` for `path`, recording its range and the ranges
/// of everything inside it.
fn parse_node(
    events: &Vec<MarkedEvent>,
    cursor: &mut usize,
    map: &mut YamlSourceMap,
    path: &YamlPath,
) -> (r: Result<TextRange, DawnParseDiagnostic>)
    requires
        *old(cursor) <= events@.len(),
    ensures
        outcome_matches(
            spec_node(events_view(events@), *old(cursor) as int, path@, old(map)@),
            r,
            *final(cursor) as int,
            final(map)@,
        ),
        r is Ok ==> *old(cursor) < *final(cursor) <= events@.len(),
    decreases events@.len() - *old(cursor), 0int,
{
    let ghost ev = events_view(events@);
    let ghost c0 = *cursor as int;
    if *cursor >= events.len() {
        return Err(end_of_events());
    }
    let here = *cursor;
    let range = marker_range(events[here].line, events[here].col);
    assert(ev[c0] == (events@[c0].event@, spec_marker_range(events@[c0].line, events@[c0].col)));
    *cursor = here + 1;
    map.insert_value(path.duplicate(), range);
    match &events[here].event {
        YamlEvent::Scalar(_) => Ok(range),
        YamlEvent::Alias => Ok(range),
        YamlEvent::MappingStart => {
            let ghost m1 = map@;
            let ghost outer = spec_node(ev, c0, path@, old(map)@);
            assert(outer == wrap_outcome(spec_entries(ev, c0 + 1, path@, m1), range));
            while !is_mapping_end(events, *cursor)
                invariant
                    ev == events_view(events@),
                    c0 < *cursor <= events@.len(),
                    c0 == here,
                    c0 == *old(cursor),
                    outer == spec_node(ev, c0, path@, old(map)@),
                    outer == wrap_outcome(spec_entries(ev, c0 + 1, path@, m1), range),
                    spec_entries(ev, c0 + 1, path@, m1) == spec_entries(ev, *cursor as int, path@, map@),
                decreases events@.len() - *cursor,
            {
                let key_at = *cursor;
                if key_at >= events.len() {
                    return Err(end_of_events());
                }
                assert(ev[key_at as int] == (
                    events@[key_at as int].event@,
                    spec_marker_range(events@[key_at as int].line, events@[key_at as int].col),
                ));
                let key_range = marker_range(events[key_at].line, events[key_at].col);
                let key = match &events[key_at].event {
                    YamlEvent::Scalar(key) => key.clone(),
                    _ => {
                        return Err(non_scalar_key(key_range));
                    },
                };
                *cursor = key_at + 1;
                let child = path.push_field(key);
                let value_range = parse_node(events, cursor, map, &child)?;
                map.insert_key(child.duplicate(), key_range);
                map.insert_value(child, value_range);
            }
            *cursor = *cursor + 1;
            Ok(range)
        },
        YamlEvent::SequenceStart => {
            let ghost m1 = map@;
            let ghost outer = spec_node(ev, c0, path@, old(map)@);
            assert(outer == wrap_outcome(spec_items(ev, c0 + 1, path@, 0, m1), range));
            let mut index: usize = 0;
            while !is_sequence_end(events, *cursor)
                invariant
                    ev == events_view(events@),
                    c0 < *cursor <= events@.len(),
                    c0 == here,
                    c0 == *old(cursor),
                    outer == spec_node(ev, c0, path@, old(map)@),
                    outer == wrap_outcome(spec_items(ev, c0 + 1, path@, 0, m1), range),
                    index <= *cursor - c0,
                    spec_items(ev, c0 + 1, path@, 0, m1) == spec_items(ev, *cursor as int, path@, index as nat, map@),
                decreases events@.len() - *cursor,
            {
                let child = path.push_index(index);
                parse_node(events, cursor, map, &child)?;
                index += 1;
            }
            *cursor = *cursor + 1;
            Ok(range)
        },
        _ => Err(unexpected_event(range)),
    }
}

/// The source map of the YAML document whose parser events are `events`.
pub fn build_source_map_from_events(events: &Vec<MarkedEvent>) -> (r: Result<YamlSourceMap, DawnParseDiagnostic>)
    ensures
        spec_build(events_view(events@), 0) matches Ok(m) ==> (r matches Ok(map) && map@ == m),
        spec_build(events_view(events@), 0) matches Err((msg, range)) ==> (r matches Err(d) && d.message@ == msg
            && d.range == range),
{
    let ghost ev = events_view(events@);
    let mut map = YamlSourceMap::new();
    let mut cursor: usize = 0;
    while cursor < events.len()
        invariant
            ev == events_view(events@),
            cursor <= events@.len(),
            map@ == Map::<Seq<SegmentView>, YamlSourceRange>::empty(),
            spec_build(ev, 0) == spec_build(ev, cursor as int),
        decreases events@.len() - cursor,
    {
        assert(ev[cursor as int].0 == events@[cursor as int].event@);
        match &events[cursor].event {
            YamlEvent::StreamStart => {
                cursor += 1;
            },
            YamlEvent::DocumentStart => {
                cursor += 1;
            },
            YamlEvent::StreamEnd => {
                return Ok(map);
            },
            YamlEvent::DocumentEnd => {
                return Ok(map);
            },
            _ => {
                let root = YamlPath::root();
                parse_node(events, &mut cursor, &mut map, &root)?;
                return Ok(map);
            },
        }
    }
    Ok(map)
}

/// One step of the path at which deserializing failed, as the deserializer
/// reports it.
#[derive(Debug, Clone)]
pub enum ErrorPathSegment {
    Index { index: usize },
    Key { key: String },
    Enum { variant: String },
    Unknown,
}

/// The YAML path of a failed field: `base` followed by the reported steps,
/// with steps of unknown kind left out.
pub open spec fn spec_error_path(base: Seq<SegmentView>, steps: Seq<ErrorPathSegment>) -> Seq<SegmentView>
    decreases steps.len(),
{
    if steps.len() == 0 {
        base
    } else {
        let rest = spec_error_path(base, steps.drop_last());
        match steps.last() {
            ErrorPathSegment::Index { index } => rest.push(SegmentView::Index(index)),
            ErrorPathSegment::Key { key } => rest.push(SegmentView::Field(key@)),
            ErrorPathSegment::Enum { variant } => rest.push(SegmentView::Field(variant@)),
            ErrorPathSegment::Unknown => rest,
        }
    }
}

/// The YAML path, below `base_path`, at which deserializing failed.
pub fn serde_error_path(base_path: &YamlPath, path: &Vec<ErrorPathSegment>) -> (r: YamlPath)
    ensures
        r@ == spec_error_path(base_path@, path@),
{
    let mut mapped = base_path.duplicate();
    let mut i: usize = 0;
    while i < path.len()
        invariant
            i <= path@.len(),
            mapped@ == spec_error_path(base_path@, path@.subrange(0, i as int)),
        decreases path@.len() - i,
    {
        assert(path@.subrange(0, i + 1).drop_last() =~= path@.subrange(0, i as int));
        match &path[i] {
            ErrorPathSegment::Index { index } => {
                mapped = mapped.index(*index);
            },
            ErrorPathSegment::Key { key } => {
                mapped = mapped.field(key.clone());
            },
            ErrorPathSegment::Enum { variant } => {
                mapped = mapped.field(variant.clone());
            },
            ErrorPathSegment::Unknown => {},
        }
        i += 1;
    }
    assert(path@.subrange(0, path@.len() as int) =~= path@);
    mapped
}

/// `message` named after the object `key`: `key: message`, unless it already
/// starts with `key:`.
pub open spec fn spec_object_message(key: Seq<char>, message: Seq<char>) -> Seq<char> {
    let prefix = key + ":"@;
    if message.len() >= prefix.len() && message.subrange(0, prefix.len() as int) == prefix {
        message
    } else {
        prefix + " "@ + message
    }
}

/// Names a deserialization error after the object `key` it was found in.
pub fn object_message(key: &str, message: &str) -> (r: String)
    ensures
        r@ == spec_object_message(key@, message@),
{
    let prefix = crate::text::concat(key, ":");
    let p = crate::text::chars_of(prefix.as_str());
    let m = crate::text::chars_of(message);
    let mut starts = p.len() <= m.len();
    let mut i: usize = 0;
    while starts && i < p.len()
        invariant
            p@ == prefix@,
            m@ == message@,
            i <= p@.len(),
            starts ==> p@.len() <= m@.len(),
            starts ==> forall|j: int| 0 <= j < i ==> p@[j] == m@[j],
            !starts ==> !(m@.len() >= p@.len() && m@.subrange(0, p@.len() as int) == p@),
        decreases p@.len() - i + (if starts { 1int } else { 0int }),
    {
        if p[i] != m[i] {
            assert(m@.subrange(0, p@.len() as int)[i as int] != p@[i as int]);
            starts = false;
        } else {
            i += 1;
        }
    }
    if starts {
        assert(m@.subrange(0, p@.len() as int) =~= p@);
        String::from_str(message)
    } else {
        crate::text::concat3(prefix.as_str(), " ", message)
    }
}

} // verus!