//! Field-keyed validation of editor input.
use vstd::prelude::*;

use crate::text::{is_blank, parse_scaled_float, parse_u32_text, scaled_float, u32_text_value};

verus! {

/// An input field that can carry a validation error.
#[derive(Debug, Clone, Copy, PartialEq, Eq, Hash, Structural)]
pub enum Field {
    Name,
    MemoryBytes,
    MaxProcesses,
    AllowedPath,
    DeniedPath,
}

pub open spec fn field_key(f: Field) -> Seq<char> {
    match f {
        Field::Name => "name"@,
        Field::MemoryBytes => "memory"@,
        Field::MaxProcesses => "max_processes"@,
        Field::AllowedPath => "allowed_path"@,
        Field::DeniedPath => "denied_path"@,
    }
}

impl Field {
    /// The identifier under which the field's error is shown.
    pub fn key(&self) -> (r: &'static str)
        ensures
            r@ == field_key(*self),
    {
        match self {
            Field::Name => "name",
            Field::MemoryBytes => "memory",
            Field::MaxProcesses => "max_processes",
            Field::AllowedPath => "allowed_path",
            Field::DeniedPath => "denied_path",
        }
    }
}

pub open spec fn name_error() -> Seq<char> {
    "Name cannot be empty"@
}

pub open spec fn number_error() -> Seq<char> {
    "Must be a number"@
}

pub open spec fn positive_number_error() -> Seq<char> {
    "Must be a positive number"@
}

pub open spec fn path_error() -> Seq<char> {
    "Path cannot be empty"@
}

/// The outstanding error of each field; a field without one is valid.
#[derive(Debug, Clone)]
pub struct ValidationErrors {
    name: Option<String>,
    memory_bytes: Option<String>,
    max_processes: Option<String>,
    allowed_path: Option<String>,
    denied_path: Option<String>,
}

impl ValidationErrors {
    pub closed spec fn slot(&self, f: Field) -> Option<String> {
        match f {
            Field::Name => self.name,
            Field::MemoryBytes => self.memory_bytes,
            Field::MaxProcesses => self.max_processes,
            Field::AllowedPath => self.allowed_path,
            Field::DeniedPath => self.denied_path,
        }
    }
}

impl View for ValidationErrors {
    type V = Map<Field, Seq<char>>;

    open spec fn view(&self) -> Map<Field, Seq<char>> {
        Map::new(|f: Field| self.slot(f) is Some, |f: Field| self.slot(f)->0@)
    }
}

impl Default for ValidationErrors {
    fn default() -> (r: Self)
        ensures
            r@ == Map::<Field, Seq<char>>::empty(),
    {
        ValidationErrors::new()
    }
}

impl ValidationErrors {
    /// No errors.
    pub fn new() -> (r: Self)
        ensures
            r@ == Map::<Field, Seq<char>>::empty(),
    {
        let r = ValidationErrors {
            name: None,
            memory_bytes: None,
            max_processes: None,
            allowed_path: None,
            denied_path: None,
        };
        assert(r@ =~= Map::<Field, Seq<char>>::empty());
        r
    }

    /// The error recorded for `field`, if any.
    pub fn get(&self, field: Field) -> (r: Option<&String>)
        ensures
            r matches Some(m) ==> self@.contains_key(field) && self@[field] == m@,
            r is None ==> !self@.contains_key(field),
    {
        match field {
            Field::Name => self.name.as_ref(),
            Field::MemoryBytes => self.memory_bytes.as_ref(),
            Field::MaxProcesses => self.max_processes.as_ref(),
            Field::AllowedPath => self.allowed_path.as_ref(),
            Field::DeniedPath => self.denied_path.as_ref(),
        }
    }

    /// Whether no field has an error.
    pub fn is_empty(&self) -> (r: bool)
        ensures
            r == (self@ == Map::<Field, Seq<char>>::empty()),
    {
        let r = self.name.is_none() && self.memory_bytes.is_none() && self.max_processes.is_none()
            && self.allowed_path.is_none() && self.denied_path.is_none();
        if !r {
            assert(self@ != Map::<Field, Seq<char>>::empty()) by {
                if self.name is Some {
                    assert(self@.contains_key(Field::Name));
                } else if self.memory_bytes is Some {
                    assert(self@.contains_key(Field::MemoryBytes));
                } else if self.max_processes is Some {
                    assert(self@.contains_key(Field::MaxProcesses));
                } else if self.allowed_path is Some {
                    assert(self@.contains_key(Field::AllowedPath));
                } else {
                    assert(self@.contains_key(Field::DeniedPath));
                }
            }
        } else {
            assert(self@ =~= Map::<Field, Seq<char>>::empty());
        }
        r
    }

    /// Records `message` for `field`, replacing its earlier error.
    pub fn insert(&mut self, field: Field, message: String)
        ensures
            final(self)@ == old(self)@.insert(field, message@),
    {
        match field {
            Field::Name => self.name = Some(message),
            Field::MemoryBytes => self.memory_bytes = Some(message),
            Field::MaxProcesses => self.max_processes = Some(message),
            Field::AllowedPath => self.allowed_path = Some(message),
            Field::DeniedPath => self.denied_path = Some(message),
        }
        assert(self@ =~= old(self)@.insert(field, message@));
    }

    /// Clears the error of `field`.
    pub fn remove(&mut self, field: Field)
        ensures
            final(self)@ == old(self)@.remove(field),
    {
        match field {
            Field::Name => self.name = None,
            Field::MemoryBytes => self.memory_bytes = None,
            Field::MaxProcesses => self.max_processes = None,
            Field::AllowedPath => self.allowed_path = None,
            Field::DeniedPath => self.denied_path = None,
        }
        assert(self@ =~= old(self)@.remove(field));
    }
}

/// The unit a memory amount is typed in.
#[derive(Debug, Clone, Copy, PartialEq, Eq, Structural)]
pub enum MemoryUnit {
    Bytes,
    KB,
    MB,
    GB,
}

pub open spec fn unit_multiplier(u: MemoryUnit) -> nat {
    match u {
        MemoryUnit::Bytes => 1,
        MemoryUnit::KB => 1024,
        MemoryUnit::MB => 1024 * 1024,
        MemoryUnit::GB => 1024 * 1024 * 1024,
    }
}

pub open spec fn unit_label(u: MemoryUnit) -> Seq<char> {
    match u {
        MemoryUnit::Bytes => "Bytes"@,
        MemoryUnit::KB => "KB"@,
        MemoryUnit::MB => "MB"@,
        MemoryUnit::GB => "GB"@,
    }
}

impl MemoryUnit {
    /// Every unit, smallest first.
    pub fn all() -> (r: Vec<MemoryUnit>)
        ensures
            r@ == seq![MemoryUnit::Bytes, MemoryUnit::KB, MemoryUnit::MB, MemoryUnit::GB],
    {
        let r = vec![MemoryUnit::Bytes, MemoryUnit::KB, MemoryUnit::MB, MemoryUnit::GB];
        assert(r@ =~= seq![MemoryUnit::Bytes, MemoryUnit::KB, MemoryUnit::MB, MemoryUnit::GB]);
        r
    }

    /// Bytes per unit.
    pub fn multiplier(&self) -> (r: u64)
        ensures
            r == unit_multiplier(*self),
    {
        match self {
            MemoryUnit::Bytes => 1,
            MemoryUnit::KB => 1024,
            MemoryUnit::MB => 1024 * 1024,
            MemoryUnit::GB => 1024 * 1024 * 1024,
        }
    }

    /// The unit's name as shown to the user.
    pub fn label(&self) -> (r: &'static str)
        ensures
            r@ == unit_label(*self),
    {
        match self {
            MemoryUnit::Bytes => "Bytes",
            MemoryUnit::KB => "KB",
            MemoryUnit::MB => "MB",
            MemoryUnit::GB => "GB",
        }
    }
}

/// What a memory field's text asks for.
#[derive(Debug, Clone, Copy, PartialEq, Eq, Structural)]
pub enum MemoryInput {
    /// A number: this many bytes.
    Bytes(u64),
    /// Empty text: no limit.
    Unset,
    /// Text that is not a non-negative number.
    Invalid,
}

/// The reading of memory text in `unit`: a non-negative number (Rust's
/// floating-point syntax) converted exactly to bytes, rounded down and held
/// to `u64`; no limit for empty text; anything else, negative amounts
/// included, is invalid.
pub open spec fn memory_input(s: Seq<char>, unit: MemoryUnit) -> MemoryInput {
    match scaled_float(s, unit_multiplier(unit)) {
        Some(b) => MemoryInput::Bytes(b),
        None => if s.len() == 0 {
            MemoryInput::Unset
        } else {
            MemoryInput::Invalid
        },
    }
}

/// Reads the memory field's text in `unit`.
pub fn parse_memory(s: &str, unit: MemoryUnit) -> (r: MemoryInput)
    ensures
        r == memory_input(s@, unit),
{
    match parse_scaled_float(s, unit.multiplier()) {
        Some(b) => MemoryInput::Bytes(b),
        None => if s.unicode_len() == 0 {
            MemoryInput::Unset
        } else {
            MemoryInput::Invalid
        },
    }
}

/// Reads the process-count field's text: a non-negative integer that fits in 32 bits.
pub fn parse_max_processes(s: &str) -> (r: Option<u32>)
    ensures
        r == u32_text_value(s@),
{
    parse_u32_text(s)
}

/// Whether a name or path input is acceptable: it does not trim to nothing.
pub fn is_present(s: &str) -> (r: bool)
    ensures
        r == !is_blank(s@),
{
    !crate::text::is_blank_text(s)
}

} // verus!
