//! Trace events as the engine takes them: a name, the header's numbers,
//! and the event's named fields, each as a plain value.

use crate::text::same_text;
use vstd::prelude::*;
use vstd::string::StringExecFns;

verus! {

/// A GUID in the four parts in which Windows writes it.
#[derive(Debug, Clone, Copy, PartialEq, Eq)]
pub struct Guid {
    pub data1: u32,
    pub data2: u16,
    pub data3: u16,
    pub data4: [u8; 8],
}

/// The value of a field.
#[derive(Debug, Clone, PartialEq, Eq)]
pub enum FieldValue {
    U8(u8),
    U16(u16),
    U32(u32),
    U64(u64),
    /// A number of 32 bits that is written in hexadecimal.
    Hex32(u32),
    /// A number of 64 bits that is written in hexadecimal.
    Hex64(u64),
    /// A pointer or a size of the traced machine, widened to 64 bits.
    Pointer(u64),
    Text(String),
    Guid(Guid),
    /// A value of a type that the engine does not read.
    Other,
}

/// One named field of an event.
#[derive(Debug, Clone, PartialEq, Eq)]
pub struct EventField {
    pub name: String,
    pub value: FieldValue,
    /// The value as text, for markers that show an event's fields.
    pub rendered: String,
}

/// One event of the trace.
#[derive(Debug, Clone, PartialEq, Eq)]
pub struct TraceEvent {
    /// The full name: provider, task and opcode, parted by `/`.
    pub name: String,
    pub provider_name: String,
    /// The raw timestamp of the event's header.
    pub timestamp: u64,
    /// The process id of the event's header.
    pub process_id: u32,
    /// The thread id of the event's header.
    pub thread_id: u32,
    /// The keyword bits of the event's descriptor.
    pub keyword: u64,
    /// Whether the event comes from a process with pointers of 64 bits.
    pub is_64bit: bool,
    pub fields: Vec<EventField>,
    /// The event's data behind its fixed fields: for a stack walk, the
    /// addresses of the stack.
    pub data: Vec<u8>,
}

/// The value of the first field named `name`.
pub open spec fn field_value(fields: Seq<EventField>, name: Seq<char>) -> Option<FieldValue>
    decreases fields.len(),
{
    if fields.len() == 0 {
        None
    } else if fields[0].name@ == name {
        Some(fields[0].value)
    } else {
        field_value(fields.skip(1), name)
    }
}

/// A value read as a number of 8 bits.
pub open spec fn as_u8(value: Option<FieldValue>) -> Option<u8> {
    match value {
        Some(FieldValue::U8(n)) => Some(n),
        _ => None,
    }
}

/// A value read as a number of 32 bits.
pub open spec fn as_u32(value: Option<FieldValue>) -> Option<u32> {
    match value {
        Some(FieldValue::U32(n)) => Some(n),
        _ => None,
    }
}

/// A value read as a number of 64 bits; a pointer or a size is one.
pub open spec fn as_u64(value: Option<FieldValue>) -> Option<u64> {
    match value {
        Some(FieldValue::U64(n)) => Some(n),
        Some(FieldValue::Pointer(n)) => Some(n),
        _ => None,
    }
}

/// A value read as an address of a process whose pointers are 64 bits
/// wide, or 32 bits if not `is_64bit`: a number of that width, plain or
/// hexadecimal, or a pointer.
pub open spec fn as_address(value: Option<FieldValue>, is_64bit: bool) -> Option<u64> {
    match value {
        Some(FieldValue::Pointer(n)) => Some(n),
        Some(FieldValue::U64(n)) => if is_64bit {
            Some(n)
        } else {
            None
        },
        Some(FieldValue::Hex64(n)) => if is_64bit {
            Some(n)
        } else {
            None
        },
        Some(FieldValue::U32(n)) => if is_64bit {
            None
        } else {
            Some(n as u64)
        },
        Some(FieldValue::Hex32(n)) => if is_64bit {
            None
        } else {
            Some(n as u64)
        },
        _ => None,
    }
}

/// A value read as text.
pub open spec fn as_text(value: Option<FieldValue>) -> Option<Seq<char>> {
    match value {
        Some(FieldValue::Text(text)) => Some(text@),
        _ => None,
    }
}

/// A value read as a GUID.
pub open spec fn as_guid(value: Option<FieldValue>) -> Option<Guid> {
    match value {
        Some(FieldValue::Guid(guid)) => Some(guid),
        _ => None,
    }
}

/// The text of an optional string.
pub open spec fn text_view(text: Option<String>) -> Option<Seq<char>> {
    match text {
        Some(t) => Some(t@),
        None => None,
    }
}

/// The text that shows an event's fields: each field that is not hidden,
/// in the event's order, as its name and value, followed by a comma and a
/// space.
pub open spec fn fields_text(fields: Seq<EventField>, hidden: Seq<Seq<char>>) -> Seq<char>
    decreases fields.len(),
{
    if fields.len() == 0 {
        Seq::empty()
    } else {
        let front = fields_text(fields.drop_last(), hidden);
        if hidden.contains(fields.last().name@) {
            front
        } else {
            front + fields.last().rendered@ + seq![',', ' ']
        }
    }
}

/// The texts of a list of names.
pub open spec fn name_views(names: Seq<&str>) -> Seq<Seq<char>> {
    names.map_values(|n: &str| n@)
}

fn is_hidden(name: &str, hidden: &Vec<&str>) -> (found: bool)
    ensures
        found == name_views(hidden@).contains(name@),
{
    let mut i: usize = 0;
    while i < hidden.len()
        invariant
            i <= hidden.len(),
            forall|k: int| 0 <= k < i ==> name_views(hidden@)[k] != name@,
        decreases hidden.len() - i,
    {
        if same_text(hidden[i], name) {
            assert(name_views(hidden@)[i as int] == name@);
            return true;
        }
        i += 1;
    }
    false
}

impl TraceEvent {
    fn find(&self, name: &str) -> (value: Option<&FieldValue>)
        ensures
            match value {
                Some(v) => field_value(self.fields@, name@) == Some(*v),
                None => field_value(self.fields@, name@) is None,
            },
    {
        let mut i: usize = 0;
        assert(self.fields@.skip(0) == self.fields@);
        while i < self.fields.len()
            invariant
                i <= self.fields.len(),
                field_value(self.fields@, name@) == field_value(self.fields@.skip(i as int), name@),
            decreases self.fields.len() - i,
        {
            proof {
                assert(self.fields@.skip(i as int)[0] == self.fields@[i as int]);
                assert(self.fields@.skip(i as int).skip(1) == self.fields@.skip(i + 1));
            }
            if same_text(self.fields[i].name.as_str(), name) {
                return Some(&self.fields[i].value);
            }
            i += 1;
        }
        None
    }

    /// The field `name` as a number of 8 bits.
    pub fn u8_field(&self, name: &str) -> (value: Option<u8>)
        ensures
            value == as_u8(field_value(self.fields@, name@)),
    {
        match self.find(name) {
            Some(FieldValue::U8(n)) => Some(*n),
            _ => None,
        }
    }

    /// The field `name` as a number of 32 bits.
    pub fn u32_field(&self, name: &str) -> (value: Option<u32>)
        ensures
            value == as_u32(field_value(self.fields@, name@)),
    {
        match self.find(name) {
            Some(FieldValue::U32(n)) => Some(*n),
            _ => None,
        }
    }

    /// The field `name` as a number of 64 bits.
    pub fn u64_field(&self, name: &str) -> (value: Option<u64>)
        ensures
            value == as_u64(field_value(self.fields@, name@)),
    {
        match self.find(name) {
            Some(FieldValue::U64(n)) => Some(*n),
            Some(FieldValue::Pointer(n)) => Some(*n),
            _ => None,
        }
    }

    /// The field `name` as an address of the event's process.
    pub fn address_field(&self, name: &str) -> (value: Option<u64>)
        ensures
            value == as_address(field_value(self.fields@, name@), self.is_64bit),
    {
        match self.find(name) {
            Some(FieldValue::Pointer(n)) => Some(*n),
            Some(FieldValue::U64(n)) => if self.is_64bit {
                Some(*n)
            } else {
                None
            },
            Some(FieldValue::Hex64(n)) => if self.is_64bit {
                Some(*n)
            } else {
                None
            },
            Some(FieldValue::U32(n)) => if self.is_64bit {
                None
            } else {
                Some(*n as u64)
            },
            Some(FieldValue::Hex32(n)) => if self.is_64bit {
                None
            } else {
                Some(*n as u64)
            },
            _ => None,
        }
    }

    /// The field `name` as text.
    pub fn text_field(&self, name: &str) -> (value: Option<String>)
        ensures
            text_view(value) == as_text(field_value(self.fields@, name@)),
    {
        match self.find(name) {
            Some(FieldValue::Text(text)) => Some(text.clone()),
            _ => None,
        }
    }

    /// The field `name` as a GUID.
    pub fn guid_field(&self, name: &str) -> (value: Option<Guid>)
        ensures
            value == as_guid(field_value(self.fields@, name@)),
    {
        match self.find(name) {
            Some(FieldValue::Guid(guid)) => Some(*guid),
            _ => None,
        }
    }

    /// The text that shows the event's fields, without the hidden ones.
    pub fn text(&self, hidden: &Vec<&str>) -> (text: String)
        ensures
            text@ == fields_text(self.fields@, name_views(hidden@)),
    {
        let mut text = String::new();
        let mut i: usize = 0;
        assert(self.fields@.take(0) == Seq::<EventField>::empty());
        while i < self.fields.len()
            invariant
                i <= self.fields.len(),
                text@ == fields_text(self.fields@.take(i as int), name_views(hidden@)),
            decreases self.fields.len() - i,
        {
            proof {
                let next = self.fields@.take(i + 1);
                assert(next.drop_last() == self.fields@.take(i as int));
                assert(next.last() == self.fields@[i as int]);
            }
            if !is_hidden(self.fields[i].name.as_str(), hidden) {
                let ghost before = text@;
                text.append(self.fields[i].rendered.as_str());
                text.push(',');
                text.push(' ');
                assert(text@ == before + self.fields@[i as int].rendered@ + seq![',', ' ']);
            }
            i += 1;
        }
        assert(self.fields@.take(self.fields.len() as int) == self.fields@);
        text
    }
}

} // verus!
