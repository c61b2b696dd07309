//! Changing the registers in the description of a chip.
use vstd::prelude::*;

use crate::sorting;
use crate::test_runner::lints::patterns;
use crate::test_runner::lints::patterns::{regex_captures, regex_is_match};
use crate::test_runner::variables;
use crate::test_runner::variables::{Variable, VariableView, Variables};
use crate::text;
use crate::text::{
    decimal_text, hex_text, items_copy, joined2, joined3, joined5, joined6, lists_item, no_items,
    owned, push_item, same_text, split_lines,
};

verus! {

/// A value of a change, as it was written.
#[derive(Debug, Clone, PartialEq, Eq)]
pub enum PatchValue {
    Text(String),
    Unsigned(u64),
    /// A number below zero.
    Negative(i64),
    /// Another number, as it prints.
    Printed(String),
}

/// A value as it stands in a description: numbers that are not below zero in base sixteen.
pub open spec fn value_text_of(v: PatchValue) -> Seq<char> {
    match v {
        PatchValue::Text(s) => s@,
        PatchValue::Unsigned(n) => "0x"@ + text::hex(n as nat),
        PatchValue::Negative(n) => if n < 0 {
            "-"@ + text::decimal((-n) as nat)
        } else {
            text::decimal(n as nat)
        },
        PatchValue::Printed(s) => s@,
    }
}

/// A value as it stands in a description.
pub fn value_text(v: &PatchValue) -> (r: String)
    ensures
        r@ == value_text_of(*v),
{
    match v {
        PatchValue::Text(s) => owned(s.as_str()),
        PatchValue::Unsigned(n) => joined2("0x", hex_text(*n).as_str()),
        PatchValue::Negative(n) => {
            if *n < 0 {
                let magnitude: u64 = (-(*n as i128)) as u64;
                joined2("-", decimal_text(magnitude).as_str())
            } else {
                decimal_text(*n as u64)
            }
        },
        PatchValue::Printed(s) => owned(s.as_str()),
    }
}

/// A property of a register, and the value that it gets.
#[derive(Debug, Clone, PartialEq, Eq)]
pub struct Property {
    pub name: String,
    pub value: PatchValue,
}

impl View for Property {
    type V = VariableView;

    open spec fn view(&self) -> VariableView {
        VariableView { name: self.name@, value: value_text_of(self.value) }
    }
}

/// The changes of one register.
#[derive(Debug, Clone, PartialEq, Eq)]
pub struct RegisterPatch {
    pub name: String,
    pub props: Vec<Property>,
}

#[verifier::ext_equal]
pub struct RegisterPatchView {
    pub name: Seq<char>,
    pub props: Seq<VariableView>,
}

impl View for RegisterPatch {
    type V = RegisterPatchView;

    open spec fn view(&self) -> RegisterPatchView {
        RegisterPatchView { name: self.name@, props: sorting::views(self.props@) }
    }
}

/// The changes of one peripheral.
#[derive(Debug, Clone, PartialEq, Eq)]
pub struct PeripheralPatch {
    pub name: String,
    pub registers: Vec<RegisterPatch>,
}

#[verifier::ext_equal]
pub struct PeripheralPatchView {
    pub name: Seq<char>,
    pub registers: Seq<RegisterPatchView>,
}

impl View for PeripheralPatch {
    type V = PeripheralPatchView;

    open spec fn view(&self) -> PeripheralPatchView {
        PeripheralPatchView { name: self.name@, registers: sorting::views(self.registers@) }
    }
}

/// The last of the first `n` peripherals with a name.
pub open spec fn peripheral_named(patches: Seq<PeripheralPatchView>, name: Seq<char>, n: int) -> Option<
    Seq<RegisterPatchView>,
>
    decreases n,
{
    if n <= 0 || n > patches.len() {
        None
    } else if patches[n - 1].name == name {
        Some(patches[n - 1].registers)
    } else {
        peripheral_named(patches, name, n - 1)
    }
}

/// The last of the first `n` registers with a name.
pub open spec fn register_named(registers: Seq<RegisterPatchView>, name: Seq<char>, n: int) -> Option<
    Seq<VariableView>,
>
    decreases n,
{
    if n <= 0 || n > registers.len() {
        None
    } else if registers[n - 1].name == name {
        Some(registers[n - 1].props)
    } else {
        register_named(registers, name, n - 1)
    }
}

/// The changes of a register: of a name that is given twice, the last one holds.
pub open spec fn props_of(
    patches: Seq<PeripheralPatchView>,
    peripheral: Seq<char>,
    register: Seq<char>,
) -> Option<Seq<VariableView>> {
    match peripheral_named(patches, peripheral, patches.len() as int) {
        Some(registers) => match register_named(registers, register, registers.len() as int) {
            Some(props) => Some(variables::with_all(Seq::empty(), props, 0)),
            None => None,
        },
        None => None,
    }
}

fn gather(props: &Vec<Property>) -> (r: Vec<Variable>)
    ensures
        sorting::views(r@) == variables::with_all(Seq::empty(), sorting::views(props@), 0),
{
    let ghost all = sorting::views(props@);
    let mut set = Variables::new();
    let mut i: usize = 0;
    while i < props.len()
        invariant
            i <= props@.len(),
            all == sorting::views(props@),
            variables::with_all(Seq::empty(), all, 0) == variables::with_all(set@, all, i as int),
        decreases props@.len() - i,
    {
        proof {
            assert(all[i as int] == props@[i as int]@);
        }
        set.insert(props[i].name.as_str(), value_text(&props[i].value).as_str());
        i += 1;
    }
    set.into_list()
}

fn find_register(registers: &Vec<RegisterPatch>, name: &str) -> (r: Option<Vec<Variable>>)
    ensures
        match r {
            Some(v) => register_named(sorting::views(registers@), name@, registers@.len() as int)
                matches Some(props) && sorting::views(v@) == variables::with_all(
                Seq::empty(),
                props,
                0,
            ),
            None => register_named(
                sorting::views(registers@),
                name@,
                registers@.len() as int,
            ) is None,
        },
{
    let ghost all = sorting::views(registers@);
    let mut i: usize = registers.len();
    while i > 0
        invariant
            i <= registers@.len(),
            all == sorting::views(registers@),
            register_named(all, name@, registers@.len() as int) == register_named(
                all,
                name@,
                i as int,
            ),
        decreases i,
    {
        i -= 1;
        proof {
            assert(all[i as int] == registers@[i as int]@);
        }
        if same_text(registers[i].name.as_str(), name) {
            return Some(gather(&registers[i].props));
        }
    }
    None
}

fn find_patch(patches: &Vec<PeripheralPatch>, peripheral: &str, register: &str) -> (r: Option<
    Vec<Variable>,
>)
    ensures
        match r {
            Some(v) => props_of(sorting::views(patches@), peripheral@, register@) == Some(
                sorting::views(v@),
            ),
            None => props_of(sorting::views(patches@), peripheral@, register@) is None,
        },
{
    let ghost all = sorting::views(patches@);
    let mut i: usize = patches.len();
    while i > 0
        invariant
            i <= patches@.len(),
            all == sorting::views(patches@),
            peripheral_named(all, peripheral@, patches@.len() as int) == peripheral_named(
                all,
                peripheral@,
                i as int,
            ),
        decreases i,
    {
        i -= 1;
        proof {
            assert(all[i as int] == patches@[i as int]@);
        }
        if same_text(patches[i].name.as_str(), peripheral) {
            return find_register(&patches[i].registers, register);
        }
    }
    None
}

/// What a line of a description is.
#[derive(Debug, Clone, PartialEq, Eq)]
pub enum SvdLine {
    PeripheralStart,
    PeripheralEnd,
    /// With the white space before it.
    RegisterStart(String),
    RegisterEnd,
    Name(String),
    Other,
}

pub enum SvdLineView {
    PeripheralStart,
    PeripheralEnd,
    RegisterStart(Seq<char>),
    RegisterEnd,
    Name(Seq<char>),
    Other,
}

impl View for SvdLine {
    type V = SvdLineView;

    open spec fn view(&self) -> SvdLineView {
        match self {
            SvdLine::PeripheralStart => SvdLineView::PeripheralStart,
            SvdLine::PeripheralEnd => SvdLineView::PeripheralEnd,
            SvdLine::RegisterStart(s) => SvdLineView::RegisterStart(s@),
            SvdLine::RegisterEnd => SvdLineView::RegisterEnd,
            SvdLine::Name(s) => SvdLineView::Name(s@),
            SvdLine::Other => SvdLineView::Other,
        }
    }
}

pub const PERIPHERAL_START: &'static str = "^\\s*<peripheral>\\s*$";

pub const PERIPHERAL_END: &'static str = "^\\s*</peripheral>\\s*$";

pub const REGISTER_START: &'static str = "^(\\s*)<register>\\s*$";

pub const REGISTER_END: &'static str = "^\\s*</register>\\s*$";

pub const NAME: &'static str = "^\\s*<name>(.*?)</name>\\s*$";

/// The group of the first match, if there is a match.
pub open spec fn group_of(all: Seq<patterns::CapturedView>) -> Option<Seq<char>> {
    if all.len() > 0 {
        Some(
            if all[0].groups.len() > 1 {
                all[0].groups[1]
            } else {
                ""@
            },
        )
    } else {
        None
    }
}

fn first_group(all: &Vec<patterns::Captured>) -> (r: Option<String>)
    ensures
        text::optional(r) == group_of(sorting::views(all@)),
{
    if all.len() == 0 {
        return None;
    }
    proof {
        assert(sorting::views(all@)[0] == all@[0]@);
    }
    if all[0].groups.len() > 1 {
        proof {
            assert(all@[0]@.groups[1] == all@[0].groups@[1]@);
        }
        Some(owned(all[0].groups[1].as_str()))
    } else {
        Some(owned(""))
    }
}

/// What a line is, given what the patterns find in it.
pub open spec fn line_of(
    peripheral_start: bool,
    peripheral_end: bool,
    register_start: Option<Seq<char>>,
    register_end: bool,
    name: Option<Seq<char>>,
) -> SvdLineView {
    if peripheral_start {
        SvdLineView::PeripheralStart
    } else if peripheral_end {
        SvdLineView::PeripheralEnd
    } else if register_start is Some {
        SvdLineView::RegisterStart(register_start->0)
    } else if register_end {
        SvdLineView::RegisterEnd
    } else if name is Some {
        SvdLineView::Name(name->0)
    } else {
        SvdLineView::Other
    }
}

/// Tells what a line is, given what the patterns find in it.
pub fn classify(
    peripheral_start: bool,
    peripheral_end: bool,
    register_start: Option<String>,
    register_end: bool,
    name: Option<String>,
) -> (r: SvdLine)
    ensures
        r@ == line_of(
            peripheral_start,
            peripheral_end,
            text::optional(register_start),
            register_end,
            text::optional(name),
        ),
{
    if peripheral_start {
        return SvdLine::PeripheralStart;
    }
    if peripheral_end {
        return SvdLine::PeripheralEnd;
    }
    match register_start {
        Some(indent) => {
            return SvdLine::RegisterStart(indent);
        },
        None => {},
    }
    if register_end {
        return SvdLine::RegisterEnd;
    }
    match name {
        Some(name) => SvdLine::Name(name),
        None => SvdLine::Other,
    }
}

/// What a line is; `None` if one of the patterns is no regular expression.
pub open spec fn read_line_of(line: Seq<char>) -> Option<SvdLineView> {
    match (
        patterns::regex_is_match_of(PERIPHERAL_START@, line),
        patterns::regex_is_match_of(PERIPHERAL_END@, line),
        patterns::regex_captures_of(REGISTER_START@, line),
        patterns::regex_is_match_of(REGISTER_END@, line),
        patterns::regex_captures_of(NAME@, line),
    ) {
        (Some(a), Some(b), Some(c), Some(d), Some(e)) => Some(
            line_of(a, b, group_of(c), d, group_of(e)),
        ),
        _ => None,
    }
}

fn read_line(line: &str) -> (r: Option<SvdLine>)
    ensures
        match r {
            Some(l) => read_line_of(line@) == Some(l@),
            None => read_line_of(line@) is None,
        },
{
    let a = regex_is_match(PERIPHERAL_START, line);
    let b = regex_is_match(PERIPHERAL_END, line);
    let c = regex_captures(REGISTER_START, line);
    let d = regex_is_match(REGISTER_END, line);
    let e = regex_captures(NAME, line);
    match (a, b, c, d, e) {
        (Some(a), Some(b), Some(c), Some(d), Some(e)) => {
            let indent = first_group(&c);
            let name = first_group(&e);
            Some(classify(a, b, indent, d, name))
        },
        _ => None,
    }
}

/// Where in a description the change is.
#[verifier::ext_equal]
pub struct PatchState {
    /// The peripheral, once it has begun; its name, once it is known.
    pub peripheral: Option<Seq<char>>,
    pub in_register: bool,
    /// The white space before the register.
    pub indent: Seq<char>,
    /// The changes of the register, if there are any.
    pub active: Option<Seq<VariableView>>,
    /// The properties that the register was seen to have.
    pub seen: Seq<Seq<char>>,
}

/// Where the change is before the first line.
pub open spec fn start_state() -> PatchState {
    PatchState {
        peripheral: None,
        in_register: false,
        indent: Seq::empty(),
        active: None,
        seen: Seq::empty(),
    }
}

/// Where the change is once it is known what a line is.
pub open spec fn after_line(s: PatchState, patches: Seq<PeripheralPatchView>, line: SvdLineView) -> PatchState {
    match line {
        SvdLineView::PeripheralStart => PatchState { peripheral: Some(Seq::empty()), ..s },
        SvdLineView::PeripheralEnd => PatchState { peripheral: None, ..s },
        SvdLineView::RegisterStart(indent) => PatchState {
            in_register: true,
            indent,
            active: None,
            seen: Seq::empty(),
            ..s
        },
        SvdLineView::RegisterEnd => PatchState { in_register: false, active: None, ..s },
        SvdLineView::Name(name) => if s.in_register {
            match s.peripheral {
                Some(p) => match props_of(patches, p, name) {
                    Some(props) => PatchState { active: Some(props), ..s },
                    None => s,
                },
                None => s,
            }
        } else if s.peripheral is Some {
            PatchState { peripheral: Some(name), ..s }
        } else {
            s
        },
        SvdLineView::Other => s,
    }
}

/// A property with its value, as a line writes it.
pub open spec fn property_text(p: VariableView) -> Seq<char> {
    "<"@ + p.name + ">"@ + p.value + "</"@ + p.name + ">"@
}

/// The lines of those of the first `n` properties that the register was not seen to have.
pub open spec fn added_lines(
    props: Seq<VariableView>,
    seen: Seq<Seq<char>>,
    indent: Seq<char>,
    n: int,
) -> Seq<char>
    decreases n,
{
    if n <= 0 || n > props.len() {
        Seq::empty()
    } else {
        let front = added_lines(props, seen, indent, n - 1);
        if seen.contains(props[n - 1].name) {
            front
        } else {
            front + ("  "@ + indent + property_text(props[n - 1]) + "\n"@)
        }
    }
}

/// The lines that go before a line: at the end of a register, the changes that it lacks.
pub open spec fn lines_before(s: PatchState, line: SvdLineView) -> Seq<char> {
    match (line, s.active) {
        (SvdLineView::RegisterEnd, Some(props)) => added_lines(
            props,
            s.seen,
            s.indent,
            props.len() as int,
        ),
        _ => Seq::empty(),
    }
}

/// The pattern of a line that holds a property.
pub open spec fn property_pattern(name: Seq<char>) -> Seq<char> {
    "^(\\s*)<"@ + name + ">.*?</"@ + name + ">\\s*$"@
}

/// A line once the first `n` properties are changed in it, and the properties that were in it:
/// `None` if a pattern is no regular expression.
pub open spec fn changed_line(line: Seq<char>, props: Seq<VariableView>, n: int) -> Option<
    (Seq<char>, Seq<Seq<char>>),
>
    decreases n,
{
    if n <= 0 || n > props.len() {
        Some((line, Seq::empty()))
    } else {
        match (
            changed_line(line, props, n - 1),
            patterns::regex_captures_of(property_pattern(props[n - 1].name), line),
        ) {
            (Some(front), Some(all)) => match group_of(all) {
                Some(indent) => Some(
                    (indent + property_text(props[n - 1]), front.1.push(props[n - 1].name)),
                ),
                None => Some(front),
            },
            _ => None,
        }
    }
}

/// What a description is once the lines from index `i` on are changed, behind `done`.
pub open spec fn patched_from(
    lines: Seq<Seq<char>>,
    i: int,
    patches: Seq<PeripheralPatchView>,
    s: PatchState,
    done: Seq<char>,
) -> Option<Seq<char>>
    decreases lines.len() - i,
{
    if i < 0 || i >= lines.len() {
        Some(done)
    } else {
        match read_line_of(lines[i]) {
            None => None,
            Some(kind) => {
                let next = after_line(s, patches, kind);
                let props = match next.active {
                    Some(props) => props,
                    None => Seq::empty(),
                };
                match changed_line(lines[i], props, props.len() as int) {
                    None => None,
                    Some(changed) => patched_from(
                        lines,
                        i + 1,
                        patches,
                        PatchState { seen: next.seen + changed.1, ..next },
                        done + lines_before(s, kind) + (changed.0 + "\n"@),
                    ),
                }
            },
        }
    }
}

struct Progress {
    peripheral: Option<String>,
    in_register: bool,
    indent: String,
    active: Option<Vec<Variable>>,
    seen: Vec<String>,
}

impl View for Progress {
    type V = PatchState;

    closed spec fn view(&self) -> PatchState {
        PatchState {
            peripheral: text::optional(self.peripheral),
            in_register: self.in_register,
            indent: self.indent@,
            active: match self.active {
                Some(p) => Some(sorting::views(p@)),
                None => None,
            },
            seen: sorting::views(self.seen@),
        }
    }
}

fn write_property(p: &Variable) -> (r: String)
    ensures
        r@ == property_text(p@),
{
    joined2(
        joined6("<", p.name.as_str(), ">", p.value.as_str(), "</", p.name.as_str()).as_str(),
        ">",
    )
}

impl Progress {
    fn lines_before(&self, line: &SvdLine) -> (r: String)
        ensures
            r@ == lines_before(self@, line@),
    {
        let mut out = owned("");
        proof {
            reveal_strlit("");
            assert(out@ =~= Seq::empty());
        }
        match (line, &self.active) {
            (SvdLine::RegisterEnd, Some(props)) => {
                let ghost all = sorting::views(props@);
                let mut i: usize = 0;
                while i < props.len()
                    invariant
                        i <= props@.len(),
                        all == sorting::views(props@),
                        out@ == added_lines(all, self@.seen, self@.indent, i as int),
                    decreases props@.len() - i,
                {
                    proof {
                        assert(all[i as int] == props@[i as int]@);
                    }
                    if !lists_item(&self.seen, props[i].name.as_str()) {
                        let line = text::joined4(
                            "  ",
                            self.indent.as_str(),
                            write_property(&props[i]).as_str(),
                            "\n",
                        );
                        out = joined2(out.as_str(), line.as_str());
                    }
                    i += 1;
                }
            },
            _ => {},
        }
        out
    }

    fn on_line(&mut self, patches: &Vec<PeripheralPatch>, line: SvdLine)
        ensures
            final(self)@ == after_line(old(self)@, sorting::views(patches@), line@),
    {
        proof {
            reveal_strlit("");
            assert(""@ =~= Seq::empty());
        }
        match line {
            SvdLine::PeripheralStart => {
                self.peripheral = Some(owned(""));
            },
            SvdLine::PeripheralEnd => {
                self.peripheral = None;
            },
            SvdLine::RegisterStart(indent) => {
                self.in_register = true;
                self.indent = indent;
                self.active = None;
                self.seen = no_items();
            },
            SvdLine::RegisterEnd => {
                self.in_register = false;
                self.active = None;
            },
            SvdLine::Name(name) => {
                if self.in_register {
                    match &self.peripheral {
                        Some(p) => {
                            match find_patch(patches, p.as_str(), name.as_str()) {
                                Some(props) => {
                                    self.active = Some(props);
                                },
                                None => {},
                            }
                        },
                        None => {},
                    }
                } else if self.peripheral.is_some() {
                    self.peripheral = Some(name);
                }
            },
            SvdLine::Other => {},
        }
    }
}

fn change_line(line: &str, props: &Vec<Variable>) -> (r: Option<(String, Vec<String>)>)
    ensures
        match r {
            Some(c) => changed_line(line@, sorting::views(props@), props@.len() as int) == Some(
                (c.0@, sorting::views(c.1@)),
            ),
            None => changed_line(line@, sorting::views(props@), props@.len() as int) is None,
        },
{
    let ghost all = sorting::views(props@);
    let mut now = owned(line);
    let mut seen = no_items();
    let mut failed: bool = false;
    let mut i: usize = 0;
    while i < props.len()
        invariant
            i <= props@.len(),
            all == sorting::views(props@),
            failed ==> changed_line(line@, all, i as int) is None,
            !failed ==> changed_line(line@, all, i as int) == Some(
                (now@, sorting::views(seen@)),
            ),
        decreases props@.len() - i,
    {
        let name = props[i].name.as_str();
        proof {
            assert(all[i as int] == props@[i as int]@);
        }
        let pattern = joined5("^(\\s*)<", name, ">.*?</", name, ">\\s*$");
        match regex_captures(pattern.as_str(), line) {
            Some(found) => match first_group(&found) {
                Some(indent) => {
                    now = joined2(indent.as_str(), write_property(&props[i]).as_str());
                    push_item(&mut seen, name);
                },
                None => {},
            },
            None => {
                failed = true;
            },
        }
        i += 1;
    }
    if failed {
        None
    } else {
        Some((now, seen))
    }
}

/// Changes the registers in a description; `None` if a property's name makes no pattern. The
/// changes that a register lacks are added in the order in which they are given.
pub fn apply_svd_patch(xml: &str, patches: &Vec<PeripheralPatch>) -> (r: Option<String>)
    ensures
        text::optional(r) == patched_from(
            text::lines_of(xml@),
            0,
            sorting::views(patches@),
            start_state(),
            Seq::empty(),
        ),
{
    let lines = split_lines(xml);
    let ghost all = text::lines_of(xml@);
    let ghost changes = sorting::views(patches@);
    let mut progress = Progress {
        peripheral: None,
        in_register: false,
        indent: owned(""),
        active: None,
        seen: no_items(),
    };
    let mut out = owned("");
    proof {
        reveal_strlit("");
        assert(""@ =~= Seq::empty());
        assert(progress@ =~= start_state());
    }
    let mut i: usize = 0;
    while i < lines.len()
        invariant
            i <= lines@.len(),
            all == sorting::views(lines@),
            all == text::lines_of(xml@),
            changes == sorting::views(patches@),
            patched_from(all, 0, changes, start_state(), Seq::empty()) == patched_from(
                all,
                i as int,
                changes,
                progress@,
                out@,
            ),
        decreases lines@.len() - i,
    {
        let line = lines[i].as_str();
        proof {
            assert(all[i as int] == line@);
        }
        let kind = match read_line(line) {
            Some(kind) => kind,
            None => {
                return None;
            },
        };
        let before = progress.lines_before(&kind);
        let ghost kind_view = kind@;
        let ghost state = progress@;
        progress.on_line(patches, kind);
        let ghost next = progress@;
        let changed = match &progress.active {
            Some(props) => change_line(line, props),
            None => {
                let none = no_items();
                Some((owned(line), none))
            },
        };
        let changed = match changed {
            Some(c) => c,
            None => {
                return None;
            },
        };
        out = joined3(
            out.as_str(),
            before.as_str(),
            joined2(changed.0.as_str(), "\n").as_str(),
        );
        let mut seen = items_copy(&progress.seen);
        crate::text::push_items(&mut seen, &changed.1);
        progress.seen = seen;
        i += 1;
    }
    Some(out)
}

/// Without changes a description keeps its lines.
pub proof fn law_no_patch_keeps_lines(
    lines: Seq<Seq<char>>,
    i: int,
    s: PatchState,
    done: Seq<char>,
)
    requires
        0 <= i <= lines.len(),
        s.active is None,
        forall|k: int| i <= k < lines.len() ==> #[trigger] read_line_of(lines[k]) is Some,
    ensures
        patched_from(lines, i, Seq::empty(), s, done) == Some(done + lines_again(lines, i)),
    decreases lines.len() - i,
{
    if i < lines.len() {
        let kind = read_line_of(lines[i])->0;
        let next = after_line(s, Seq::empty(), kind);
        assert(next.active is None);
        let seen = PatchState { seen: next.seen + Seq::empty(), ..next };
        law_no_patch_keeps_lines(
            lines,
            i + 1,
            seen,
            done + lines_before(s, kind) + (lines[i] + "\n"@),
        );
        assert(done + Seq::<char>::empty() =~= done);
        assert((done + (lines[i] + "\n"@)) + lines_again(lines, i + 1) =~= done + lines_again(
            lines,
            i,
        ));
    } else {
        assert(done + lines_again(lines, i) =~= done);
    }
}

/// The lines from index `i` on, each with its end.
pub open spec fn lines_again(lines: Seq<Seq<char>>, i: int) -> Seq<char>
    decreases lines.len() - i,
{
    if i < 0 || i >= lines.len() {
        Seq::empty()
    } else {
        lines[i] + "\n"@ + lines_again(lines, i + 1)
    }
}

} // verus!
