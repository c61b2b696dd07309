//! Showing what a simulation sends, and the objects of an emulator.
use vstd::prelude::*;

use crate::json;
use crate::json::{parts_of, JsonParts, JsonView};
use crate::sorting;
use crate::text;
use crate::text::{
    decimal_text, joined2, joined3, joined4, joined5, numbered, owned, push_text, same_text,
    starts_with_text, string_of,
};
use crate::wire;
use crate::wire::{u32_at, u64_at};

verus! {

/// `n` spaces.
pub open spec fn spaces(n: int) -> Seq<char> {
    Seq::new(
        if n > 0 {
            n as nat
        } else {
            0
        },
        |i: int| ' ',
    )
}

/// `s` at the right end of a field.
pub open spec fn right_aligned(s: Seq<char>, width: int) -> Seq<char> {
    spaces(width - s.len()) + s
}

/// `s` at the left end of a field.
pub open spec fn left_aligned(s: Seq<char>, width: int) -> Seq<char> {
    s + spaces(width - s.len())
}

fn push_spaces(out: &mut Vec<char>, n: usize)
    ensures
        final(out)@ == old(out)@ + spaces(n as int),
{
    let mut i: usize = 0;
    proof {
        assert(out@ =~= out@ + spaces(0));
    }
    while i < n
        invariant
            i <= n,
            out@ == old(out)@ + spaces(i as int),
        decreases n - i,
    {
        out.push(' ');
        i += 1;
        proof {
            assert(out@ =~= old(out)@ + spaces(i as int));
        }
    }
}

fn missing(s: &str, width: usize) -> (r: usize)
    ensures
        spaces(r as int) == spaces(width - s@.len()),
{
    let n: usize = text::chars_of(s).len();
    if n < width {
        width - n
    } else {
        proof {
            assert(spaces(0) =~= spaces(width - s@.len()));
        }
        0
    }
}

/// `s` at the right end of a field.
pub fn align_right(s: &str, width: usize) -> (r: String)
    ensures
        r@ == right_aligned(s@, width as int),
{
    let mut out: Vec<char> = Vec::new();
    push_spaces(&mut out, missing(s, width));
    push_text(&mut out, s);
    proof {
        assert(out@ =~= right_aligned(s@, width as int));
    }
    string_of(out)
}

/// `s` at the left end of a field.
pub fn align_left(s: &str, width: usize) -> (r: String)
    ensures
        r@ == left_aligned(s@, width as int),
{
    let mut out: Vec<char> = text::chars_of(s);
    push_spaces(&mut out, missing(s, width));
    string_of(out)
}

/// An event that a node traced.
#[derive(Debug, Clone, PartialEq, Eq)]
pub struct TraceEvent {
    pub timestamp_ns: u64,
    pub kind: i8,
    pub id: u32,
    pub value: u64,
    pub device_name: String,
}

/// The name of a kind of event.
pub open spec fn kind_name(kind: i8) -> Seq<char> {
    if kind == 0 {
        "CPU_STATE"@
    } else if kind == 1 {
        "IRQ"@
    } else if kind == 2 {
        "PERIPHERAL"@
    } else {
        "UNKNOWN"@
    }
}

/// What an event is about: an interrupt has a slot, a pin and perhaps a device.
pub open spec fn subject_of(kind: i8, id: u32, device: Seq<char>) -> Seq<char> {
    if kind == 0 {
        "cpu="@ + text::decimal(id as nat)
    } else if kind == 1 {
        let place = "slot="@ + right_aligned(text::decimal((id / 0x1_0000) as nat), 2) + " pin="@
            + right_aligned(text::decimal((id % 0x1_0000) as nat), 2);
        if device.len() > 0 {
            place + (" ("@ + device + ")"@)
        } else {
            place
        }
    } else {
        "id="@ + text::decimal(id as nat)
    }
}

/// The line that shows an event.
pub open spec fn event_line_of(e: TraceEvent) -> Seq<char> {
    "["@ + right_aligned(text::decimal(e.timestamp_ns as nat), 15) + "] "@ + left_aligned(
        kind_name(e.kind),
        10,
    ) + " "@ + (subject_of(e.kind, e.id, e.device_name@) + " val="@ + right_aligned(
        text::decimal(e.value as nat),
        3,
    ))
}

fn event_subject(kind: i8, id: u32, device: &str) -> (r: String)
    ensures
        r@ == subject_of(kind, id, device@),
{
    if kind == 0 {
        numbered("cpu=", id as u64)
    } else if kind == 1 {
        let slot: u32 = id / 0x1_0000;
        let pin: u32 = id % 0x1_0000;
        let place = joined4(
            "slot=",
            align_right(decimal_text(slot as u64).as_str(), 2).as_str(),
            " pin=",
            align_right(decimal_text(pin as u64).as_str(), 2).as_str(),
        );
        if device.is_empty() {
            place
        } else {
            joined2(place.as_str(), joined3(" (", device, ")").as_str())
        }
    } else {
        numbered("id=", id as u64)
    }
}

/// The line that shows an event.
pub fn event_line(e: &TraceEvent) -> (r: String)
    ensures
        r@ == event_line_of(*e),
{
    let name = if e.kind == 0 {
        "CPU_STATE"
    } else if e.kind == 1 {
        "IRQ"
    } else if e.kind == 2 {
        "PERIPHERAL"
    } else {
        "UNKNOWN"
    };
    let subject = event_subject(e.kind, e.id, e.device_name.as_str());
    joined2(
        joined5(
            "[",
            align_right(decimal_text(e.timestamp_ns).as_str(), 15).as_str(),
            "] ",
            align_left(name, 10).as_str(),
            " ",
        ).as_str(),
        joined3(
            subject.as_str(),
            " val=",
            align_right(decimal_text(e.value).as_str(), 3).as_str(),
        ).as_str(),
    )
}

/// The topic on which a node traces.
pub fn trace_topic(node_id: u32) -> (r: String)
    ensures
        r@ == "sim/telemetry/trace/"@ + text::decimal(node_id as nat),
{
    numbered("sim/telemetry/trace/", node_id as u64)
}

/// The list of addresses that holds one router.
pub fn router_list(router: &str) -> (r: String)
    ensures
        r@ == "[\""@ + router@ + "\"]"@,
{
    joined3("[\"", router, "\"]")
}

/// A slot and a pin together are the number of the interrupt.
pub proof fn law_interrupt_number(id: u32)
    ensures
        (id / 0x1_0000) * 0x1_0000 + id % 0x1_0000 == id,
        id / 0x1_0000 < 0x1_0000,
{
}

/// The bytes that are read for a request to a device adapter.
pub const REQUEST_SIZE: usize = 32;

/// The bytes by which both sides greet each other.
pub const HANDSHAKE_SIZE: usize = 12;

/// The bytes of an answer of a device adapter.
pub const RESPONSE_SIZE: usize = 16;

/// A request to a device adapter.
#[derive(Debug, Clone, Copy, PartialEq, Eq, Structural)]
pub struct AdapterRequest {
    pub kind: u32,
    pub size: u32,
    pub vtime_ns: u64,
    pub addr: u64,
    pub data: u64,
}

/// What the bytes of a request say; `None` if they are too few. All of a request takes more than
/// the bytes that are read for one.
pub open spec fn request_of(bytes: Seq<u8>) -> Option<AdapterRequest> {
    if bytes.len() < 40 {
        None
    } else {
        Some(
            AdapterRequest {
                kind: wire::le_at(bytes, 0, 4) as u32,
                size: wire::le_at(bytes, 4, 4) as u32,
                vtime_ns: wire::le_at(bytes, 16, 8) as u64,
                addr: wire::le_at(bytes, 24, 8) as u64,
                data: wire::le_at(bytes, 32, 8) as u64,
            },
        )
    }
}

/// Reads a request to a device adapter.
pub fn read_request(bytes: &[u8]) -> (r: Option<AdapterRequest>)
    ensures
        r == request_of(bytes@),
{
    if bytes.len() < 40 {
        return None;
    }
    Some(
        AdapterRequest {
            kind: u32_at(bytes, 0),
            size: u32_at(bytes, 4),
            vtime_ns: u64_at(bytes, 16),
            addr: u64_at(bytes, 24),
            data: u64_at(bytes, 32),
        },
    )
}

/// An object has objects below it, by its type.
pub fn is_child(kind: &str) -> (r: bool)
    ensures
        r == text::has_prefix(kind@, "child<"@),
{
    starts_with_text(kind, "child<")
}

/// The path of an object below another.
pub open spec fn child_path_of(path: Seq<char>, name: Seq<char>) -> Seq<char> {
    if path == "/"@ {
        "/"@ + name
    } else {
        path + "/"@ + name
    }
}

/// The path of an object below another.
pub fn child_path(path: &str, name: &str) -> (r: String)
    ensures
        r@ == child_path_of(path@, name@),
{
    if same_text(path, "/") {
        joined2("/", name)
    } else {
        joined3(path, "/", name)
    }
}

/// The indentation of an object.
pub open spec fn indent_of(depth: nat) -> Seq<char>
    decreases depth,
{
    if depth == 0 {
        Seq::empty()
    } else {
        indent_of((depth - 1) as nat) + "  "@
    }
}

/// The line that shows an object.
pub fn tree_line(depth: usize, name: &str, kind: &str) -> (r: String)
    ensures
        r@ == indent_of(depth as nat) + ("├── "@ + name@ + " ("@ + kind@ + ")"@),
{
    let mut indent = owned("");
    let mut i: usize = 0;
    proof {
        reveal_strlit("");
        assert(indent@ =~= indent_of(0));
    }
    while i < depth
        invariant
            i <= depth,
            indent@ == indent_of(i as nat),
        decreases depth - i,
    {
        indent = joined2(indent.as_str(), "  ");
        i += 1;
    }
    joined2(indent.as_str(), joined5("├── ", name, " (", kind, ")").as_str())
}

/// An object below another one in an emulator, or one of its properties.
#[derive(Debug, Clone, PartialEq, Eq)]
pub struct ListedObject {
    pub name: String,
    pub kind: String,
}

#[verifier::ext_equal]
pub struct ListedObjectView {
    pub name: Seq<char>,
    pub kind: Seq<char>,
}

impl View for ListedObject {
    type V = ListedObjectView;

    open spec fn view(&self) -> ListedObjectView {
        ListedObjectView { name: self.name@, kind: self.kind@ }
    }
}

/// The first value from the member `i` on that has a name.
pub open spec fn value_from(members: Seq<(Seq<char>, JsonView)>, name: Seq<char>, i: int) -> Option<
    JsonView,
>
    decreases members.len() - i,
{
    if i < 0 || i >= members.len() {
        None
    } else if members[i].0 == name {
        Some(members[i].1)
    } else {
        value_from(members, name, i + 1)
    }
}

/// What an object holds under a name.
pub open spec fn member(j: JsonView, name: Seq<char>) -> Option<JsonView> {
    match j {
        JsonView::Object(members) => value_from(members, name, 0),
        _ => None,
    }
}

/// The text that an object holds under a name.
pub open spec fn text_member(j: JsonView, name: Seq<char>) -> Option<Seq<char>> {
    match member(j, name) {
        Some(JsonView::Text(s)) => Some(s),
        _ => None,
    }
}

/// The objects among the first `n` items of an answer: those with a name and a type.
pub open spec fn objects_in(items: Seq<JsonView>, n: int) -> Seq<ListedObjectView>
    decreases n,
{
    if n <= 0 || n > items.len() {
        Seq::empty()
    } else {
        let front = objects_in(items, n - 1);
        match (text_member(items[n - 1], "name"@), text_member(items[n - 1], "type"@)) {
            (Some(name), Some(kind)) => front.push(ListedObjectView { name, kind }),
            _ => front,
        }
    }
}

/// The objects that an answer lists.
pub open spec fn listed(answer: JsonView) -> Seq<ListedObjectView> {
    match member(answer, "return"@) {
        Some(JsonView::List(items)) => objects_in(items, items.len() as int),
        _ => Seq::empty(),
    }
}

fn find_member(v: &serde_json::Value, name: &str) -> (r: Option<JsonParts>)
    ensures
        match r {
            Some(parts) => member(json::json_contents(*v), name@) matches Some(j)
                && json::are_parts(j, parts),
            None => member(json::json_contents(*v), name@) is None,
        },
{
    match parts_of(v) {
        JsonParts::Object(names, values) => {
            let ghost all = json::members(sorting::views(names@), json::all_contents(values@));
            let mut i: usize = 0;
            while i < names.len()
                invariant
                    i <= names@.len(),
                    names@.len() == values@.len(),
                    all == json::members(sorting::views(names@), json::all_contents(values@)),
                    json::json_contents(*v) == JsonView::Object(all),
                    value_from(all, name@, 0) == value_from(all, name@, i as int),
                decreases names@.len() - i,
            {
                if same_text(names[i].as_str(), name) {
                    return Some(parts_of(&values[i]));
                }
                i += 1;
            }
            None
        },
        _ => None,
    }
}

fn find_text(v: &serde_json::Value, name: &str) -> (r: Option<String>)
    ensures
        text::optional(r) == text_member(json::json_contents(*v), name@),
{
    match find_member(v, name) {
        Some(JsonParts::Text(s)) => Some(s),
        _ => None,
    }
}

/// Tells which objects an answer of the monitor lists.
pub fn listed_objects(answer: &serde_json::Value) -> (r: Vec<ListedObject>)
    ensures
        sorting::views(r@) == listed(json::json_contents(*answer)),
{
    let mut list: Vec<ListedObject> = Vec::new();
    proof {
        assert(sorting::views(list@) =~= Seq::empty());
    }
    let items = match find_member(answer, "return") {
        Some(JsonParts::List(items)) => items,
        _ => {
            return list;
        },
    };
    let ghost all = json::all_contents(items@);
    let mut i: usize = 0;
    while i < items.len()
        invariant
            i <= items@.len(),
            all == json::all_contents(items@),
            member(json::json_contents(*answer), "return"@) == Some(JsonView::List(all)),
            sorting::views(list@) == objects_in(all, i as int),
        decreases items@.len() - i,
    {
        let ghost before = sorting::views(list@);
        match (find_text(&items[i], "name"), find_text(&items[i], "type")) {
            (Some(name), Some(kind)) => {
                list.push(ListedObject { name, kind });
                proof {
                    assert(sorting::views(list@) =~= before.push(list@.last()@));
                }
            },
            _ => {},
        }
        i += 1;
    }
    list
}

} // verus!
