//! Finding the changes of registers in a file of changes.
use vstd::prelude::*;

use crate::sorting;
use crate::test_runner::variables::VariableView;
use crate::text;
use crate::text::{owned, same_text};
use crate::virtmcu_cli::svd;
use crate::virtmcu_cli::svd::{PatchValue, PeripheralPatch, Property, RegisterPatch};

verus! {

/// What stands in a file of changes.
pub enum YamlView {
    Text(Seq<char>),
    /// A whole number that is not below zero.
    Unsigned(u64),
    /// A whole number below zero.
    Negative(i64),
    /// Another number, as it prints.
    Printed(Seq<char>),
    Mapping(Seq<EntryView>),
    /// Something that changes nothing.
    Other,
}

/// An entry of a mapping.
pub struct EntryView {
    /// `None` if the key is no text.
    pub key: Option<Seq<char>>,
    /// The key has a tag; it is then not looked up by its text.
    pub is_tagged: bool,
    pub value: YamlView,
}

/// A value of YAML.
#[verifier::external_type_specification]
#[verifier::external_body]
pub struct ExYamlValue(serde_yaml::Value);

/// The error of the YAML parser.
#[verifier::external_type_specification]
#[verifier::external_body]
pub struct ExYamlError(serde_yaml::Error);

/// What a value of YAML holds, tags left aside.
pub uninterp spec fn yaml_contents(v: serde_yaml::Value) -> YamlView;

/// The value that a text writes; `None` if it is no YAML.
pub uninterp spec fn yaml_tree_of(yaml: Seq<char>) -> Option<YamlView>;

/// Parses a text with `serde_yaml::from_str`; what the value holds is named, not spelled out.
#[verifier::external_body]
fn parse_yaml(yaml: &str) -> (r: Result<serde_yaml::Value, serde_yaml::Error>)
    ensures
        match r {
            Ok(v) => yaml_tree_of(yaml@) == Some(yaml_contents(v)),
            Err(_) => yaml_tree_of(yaml@) is None,
        },
{
    serde_yaml::from_str(yaml)
}

/// An entry of a mapping.
pub struct YamlEntry {
    pub key: Option<String>,
    pub is_tagged: bool,
    pub value: serde_yaml::Value,
}

impl View for YamlEntry {
    type V = EntryView;

    open spec fn view(&self) -> EntryView {
        EntryView {
            key: text::optional(self.key),
            is_tagged: self.is_tagged,
            value: yaml_contents(self.value),
        }
    }
}

/// Copies the entries of a mapping with `serde_yaml::Value::as_mapping`, in its order; `None` if the
/// value is none.
#[verifier::external_body]
fn entries_of(v: &serde_yaml::Value) -> (r: Option<Vec<YamlEntry>>)
    ensures
        match r {
            Some(entries) => yaml_contents(*v) == YamlView::Mapping(sorting::views(entries@)),
            None => !(yaml_contents(*v) is Mapping),
        },
{
    let plain = |(key, value): (&serde_yaml::Value, &serde_yaml::Value)| YamlEntry {
        key: key.as_str().map(|s| s.to_string()),
        is_tagged: matches!(key, serde_yaml::Value::Tagged(_)),
        value: value.clone(),
    };
    v.as_mapping().map(|mapping| mapping.iter().map(plain).collect())
}

/// Reads a text or a number with `as_str`, `as_u64`, `as_i64` and `as_f64` of `serde_yaml::Value`,
/// the first of them that gives something; `None` if the value is neither.
#[verifier::external_body]
fn value_of(v: &serde_yaml::Value) -> (r: Option<PatchValue>)
    ensures
        match r {
            Some(PatchValue::Text(s)) => yaml_contents(*v) == YamlView::Text(s@),
            Some(PatchValue::Unsigned(n)) => yaml_contents(*v) == YamlView::Unsigned(n),
            Some(PatchValue::Negative(n)) => yaml_contents(*v) == YamlView::Negative(n),
            Some(PatchValue::Printed(s)) => yaml_contents(*v) == YamlView::Printed(s@),
            None => yaml_contents(*v) is Mapping || yaml_contents(*v) is Other,
        },
{
    let text = v.as_str().map(|s| PatchValue::Text(s.to_string()));
    text.or(v.as_u64().map(PatchValue::Unsigned))
        .or(v.as_i64().map(PatchValue::Negative))
        .or(v.as_f64().map(|x| PatchValue::Printed(x.to_string())))
}

/// The text that a value puts into a description; `None` if it is neither text nor a number.
pub open spec fn shown(y: YamlView) -> Option<Seq<char>> {
    match y {
        YamlView::Text(s) => Some(s),
        YamlView::Unsigned(n) => Some("0x"@ + text::hex(n as nat)),
        YamlView::Negative(n) => Some(
            if n < 0 {
                "-"@ + text::decimal((-n) as nat)
            } else {
                text::decimal(n as nat)
            },
        ),
        YamlView::Printed(s) => Some(s),
        _ => None,
    }
}

/// The key of an entry; one that is no text counts as empty.
pub open spec fn key_of(e: EntryView) -> Seq<char> {
    match e.key {
        Some(s) => s,
        None => Seq::empty(),
    }
}

fn key_text(e: &YamlEntry) -> (r: String)
    ensures
        r@ == key_of(e@),
{
    match &e.key {
        Some(s) => owned(s.as_str()),
        None => String::new(),
    }
}

/// The entry is looked up by a name.
pub open spec fn is_named(e: EntryView, name: Seq<char>) -> bool {
    !e.is_tagged && e.key == Some(name)
}

/// The first value from the entry `i` on that is looked up by a name.
pub open spec fn value_from(entries: Seq<EntryView>, name: Seq<char>, i: int) -> Option<YamlView>
    decreases entries.len() - i,
{
    if i < 0 || i >= entries.len() {
        None
    } else if is_named(entries[i], name) {
        Some(entries[i].value)
    } else {
        value_from(entries, name, i + 1)
    }
}

/// The mapping that stands under a name in a mapping.
pub open spec fn mapping_under(y: YamlView, name: Seq<char>) -> Option<Seq<EntryView>> {
    match y {
        YamlView::Mapping(entries) => match value_from(entries, name, 0) {
            Some(YamlView::Mapping(inner)) => Some(inner),
            _ => None,
        },
        _ => None,
    }
}

fn find_mapping(v: &serde_yaml::Value, name: &str) -> (r: Option<Vec<YamlEntry>>)
    ensures
        match r {
            Some(inner) => mapping_under(yaml_contents(*v), name@) == Some(sorting::views(inner@)),
            None => mapping_under(yaml_contents(*v), name@) is None,
        },
{
    let entries = match entries_of(v) {
        Some(entries) => entries,
        None => {
            return None;
        },
    };
    let ghost all = sorting::views(entries@);
    let mut i: usize = 0;
    while i < entries.len()
        invariant
            i <= entries@.len(),
            all == sorting::views(entries@),
            value_from(all, name@, 0) == value_from(all, name@, i as int),
            yaml_contents(*v) == YamlView::Mapping(all),
        decreases entries@.len() - i,
    {
        let e = &entries[i];
        proof {
            assert(all[i as int] == e@);
        }
        let named = match &e.key {
            Some(key) => !e.is_tagged && same_text(key.as_str(), name),
            None => false,
        };
        if named {
            return entries_of(&e.value);
        }
        i += 1;
    }
    None
}

/// The properties among the first `n` entries; `None` if a value is neither text nor a number.
pub open spec fn props_in(entries: Seq<EntryView>, n: int) -> Option<Seq<VariableView>>
    decreases n,
{
    if n <= 0 || n > entries.len() {
        Some(Seq::empty())
    } else {
        match (props_in(entries, n - 1), shown(entries[n - 1].value)) {
            (Some(front), Some(value)) => Some(
                front.push(VariableView { name: key_of(entries[n - 1]), value }),
            ),
            _ => None,
        }
    }
}

/// The properties of a register; what is no mapping has none.
pub open spec fn register_props(y: YamlView) -> Option<Seq<VariableView>> {
    match y {
        YamlView::Mapping(entries) => props_in(entries, entries.len() as int),
        _ => Some(Seq::empty()),
    }
}

/// The registers among the first `n` entries.
pub open spec fn registers_in(entries: Seq<EntryView>, n: int) -> Option<
    Seq<svd::RegisterPatchView>,
>
    decreases n,
{
    if n <= 0 || n > entries.len() {
        Some(Seq::empty())
    } else {
        match (registers_in(entries, n - 1), register_props(entries[n - 1].value)) {
            (Some(front), Some(props)) => Some(
                front.push(svd::RegisterPatchView { name: key_of(entries[n - 1]), props }),
            ),
            _ => None,
        }
    }
}

/// The registers of a peripheral; one without a mapping of them has none.
pub open spec fn peripheral_registers(y: YamlView) -> Option<Seq<svd::RegisterPatchView>> {
    match mapping_under(y, "registers"@) {
        Some(entries) => registers_in(entries, entries.len() as int),
        None => Some(Seq::empty()),
    }
}

/// The peripherals among the first `n` entries.
pub open spec fn peripherals_in(entries: Seq<EntryView>, n: int) -> Option<
    Seq<svd::PeripheralPatchView>,
>
    decreases n,
{
    if n <= 0 || n > entries.len() {
        Some(Seq::empty())
    } else {
        match (peripherals_in(entries, n - 1), peripheral_registers(entries[n - 1].value)) {
            (Some(front), Some(registers)) => Some(
                front.push(svd::PeripheralPatchView { name: key_of(entries[n - 1]), registers }),
            ),
            _ => None,
        }
    }
}

/// The changes in a file; `None` if a register is to get what is neither text nor a number.
pub open spec fn patches_in(y: YamlView) -> Option<Seq<svd::PeripheralPatchView>> {
    match mapping_under(y, "peripherals"@) {
        Some(entries) => peripherals_in(entries, entries.len() as int),
        None => Some(Seq::empty()),
    }
}

proof fn lemma_none_stays(entries: Seq<EntryView>, i: int, n: int)
    requires
        0 <= i <= n <= entries.len(),
    ensures
        props_in(entries, i) is None ==> props_in(entries, n) is None,
        registers_in(entries, i) is None ==> registers_in(entries, n) is None,
        peripherals_in(entries, i) is None ==> peripherals_in(entries, n) is None,
    decreases n - i,
{
    if i < n {
        lemma_none_stays(entries, i, n - 1);
    }
}

fn props_of_register(v: &serde_yaml::Value) -> (r: Option<Vec<Property>>)
    ensures
        match r {
            Some(props) => register_props(yaml_contents(*v)) == Some(sorting::views(props@)),
            None => register_props(yaml_contents(*v)) is None,
        },
{
    let mut props: Vec<Property> = Vec::new();
    proof {
        assert(sorting::views(props@) =~= Seq::empty());
    }
    let entries = match entries_of(v) {
        Some(entries) => entries,
        None => {
            return Some(props);
        },
    };
    let ghost all = sorting::views(entries@);
    let mut i: usize = 0;
    while i < entries.len()
        invariant
            i <= entries@.len(),
            all == sorting::views(entries@),
            yaml_contents(*v) == YamlView::Mapping(all),
            props_in(all, i as int) == Some(sorting::views(props@)),
        decreases entries@.len() - i,
    {
        let ghost before = sorting::views(props@);
        proof {
            assert(all[i as int] == entries@[i as int]@);
        }
        match value_of(&entries[i].value) {
            Some(value) => {
                props.push(Property { name: key_text(&entries[i]), value });
                proof {
                    assert(sorting::views(props@) =~= before.push(props@.last()@));
                }
            },
            None => {
                proof {
                    lemma_none_stays(all, i + 1, all.len() as int);
                }
                return None;
            },
        }
        i += 1;
    }
    Some(props)
}

fn registers_of_peripheral(v: &serde_yaml::Value) -> (r: Option<Vec<RegisterPatch>>)
    ensures
        match r {
            Some(registers) => peripheral_registers(yaml_contents(*v)) == Some(
                sorting::views(registers@),
            ),
            None => peripheral_registers(yaml_contents(*v)) is None,
        },
{
    let mut registers: Vec<RegisterPatch> = Vec::new();
    proof {
        assert(sorting::views(registers@) =~= Seq::empty());
    }
    let entries = match find_mapping(v, "registers") {
        Some(entries) => entries,
        None => {
            return Some(registers);
        },
    };
    let ghost all = sorting::views(entries@);
    let mut i: usize = 0;
    while i < entries.len()
        invariant
            i <= entries@.len(),
            all == sorting::views(entries@),
            mapping_under(yaml_contents(*v), "registers"@) == Some(all),
            registers_in(all, i as int) == Some(sorting::views(registers@)),
        decreases entries@.len() - i,
    {
        let ghost before = sorting::views(registers@);
        proof {
            assert(all[i as int] == entries@[i as int]@);
        }
        match props_of_register(&entries[i].value) {
            Some(props) => {
                registers.push(RegisterPatch { name: key_text(&entries[i]), props });
                proof {
                    assert(sorting::views(registers@) =~= before.push(registers@.last()@));
                }
            },
            None => {
                proof {
                    lemma_none_stays(all, i + 1, all.len() as int);
                }
                return None;
            },
        }
        i += 1;
    }
    Some(registers)
}

/// Finds the changes in a file; `None` if a register is to get what is neither text nor a number.
pub fn patches_of(v: &serde_yaml::Value) -> (r: Option<Vec<PeripheralPatch>>)
    ensures
        match r {
            Some(patches) => patches_in(yaml_contents(*v)) == Some(sorting::views(patches@)),
            None => patches_in(yaml_contents(*v)) is None,
        },
{
    let mut patches: Vec<PeripheralPatch> = Vec::new();
    proof {
        assert(sorting::views(patches@) =~= Seq::empty());
    }
    let entries = match find_mapping(v, "peripherals") {
        Some(entries) => entries,
        None => {
            return Some(patches);
        },
    };
    let ghost all = sorting::views(entries@);
    let mut i: usize = 0;
    while i < entries.len()
        invariant
            i <= entries@.len(),
            all == sorting::views(entries@),
            mapping_under(yaml_contents(*v), "peripherals"@) == Some(all),
            peripherals_in(all, i as int) == Some(sorting::views(patches@)),
        decreases entries@.len() - i,
    {
        let ghost before = sorting::views(patches@);
        proof {
            assert(all[i as int] == entries@[i as int]@);
        }
        match registers_of_peripheral(&entries[i].value) {
            Some(registers) => {
                patches.push(PeripheralPatch { name: key_text(&entries[i]), registers });
                proof {
                    assert(sorting::views(patches@) =~= before.push(patches@.last()@));
                }
            },
            None => {
                proof {
                    lemma_none_stays(all, i + 1, all.len() as int);
                }
                return None;
            },
        }
        i += 1;
    }
    Some(patches)
}

/// Why a file of changes cannot be used.
#[derive(Debug, Clone, Copy, PartialEq, Eq, Structural)]
pub enum PatchError {
    /// It is no YAML.
    Unreadable,
    /// A register is to get what is neither text nor a number.
    NoValue,
}

/// Reads the changes that a text writes.
pub fn read_patches(yaml: &str) -> (r: Result<Vec<PeripheralPatch>, PatchError>)
    ensures
        match yaml_tree_of(yaml@) {
            Some(tree) => match patches_in(tree) {
                Some(patches) => r is Ok && sorting::views(r->Ok_0@) == patches,
                None => r == Err::<Vec<PeripheralPatch>, PatchError>(PatchError::NoValue),
            },
            None => r == Err::<Vec<PeripheralPatch>, PatchError>(PatchError::Unreadable),
        },
{
    match parse_yaml(yaml) {
        Ok(v) => match patches_of(&v) {
            Some(patches) => Ok(patches),
            None => Err(PatchError::NoValue),
        },
        Err(_) => Err(PatchError::Unreadable),
    }
}

} // verus!
