//! The trace events the services read: what happened, on which thread,
//! when, where in the source, and (for variable writes) which value.

use vstd::prelude::*;

verus! {

/// Kind of a recorded event.
#[derive(Debug, Clone, Copy, PartialEq, Eq, Hash, Structural)]
pub enum EventType {
    FunctionEntry,
    FunctionExit,
    MemoryWrite,
    VariableWrite,
    SignalDelivered,
}

/// Where in the source an event happened. Every part is optional evidence
/// but the address.
#[derive(Debug, PartialEq, Eq)]
pub struct SourceLocation {
    pub file: Option<String>,
    pub line: Option<u32>,
    pub column: Option<u32>,
    pub function: Option<String>,
    pub address: u64,
}

impl SourceLocation {
    /// No file, line, column or function, address zero.
    pub fn unknown() -> (l: Self)
        ensures
            l.file is None,
            l.line is None,
            l.column is None,
            l.function is None,
            l.address == 0,
    {
        SourceLocation { file: None, line: None, column: None, function: None, address: 0 }
    }
}

/// A variable write: the variable's name and the value written, as text.
#[derive(Debug, PartialEq, Eq)]
pub struct VariableInfo {
    pub name: String,
    pub value: String,
    pub value_type: String,
    pub address: u64,
}

/// Payload of an event, as far as the services read it.
#[derive(Debug, PartialEq, Eq)]
pub enum EventData {
    Empty,
    Variable(VariableInfo),
    /// A memory write: where, how many bytes, and, when captured, the bytes
    /// written as lowercase hex, two digits per byte (see `bytes_hex`).
    Memory { address: u64, size: u64, data_hex: Option<String> },
    /// A delivered signal, by name.
    Signal { signal_name: String },
    /// A payload the services do not interpret (function entry details).
    Other,
}

/// One recorded event.
#[derive(Debug, PartialEq, Eq)]
pub struct TraceEvent {
    pub event_id: u64,
    pub timestamp_ns: u64,
    pub thread_id: u64,
    pub event_type: EventType,
    pub location: SourceLocation,
    pub data: EventData,
}

impl TraceEvent {
    pub fn new(
        event_id: u64,
        timestamp_ns: u64,
        thread_id: u64,
        event_type: EventType,
        location: SourceLocation,
        data: EventData,
    ) -> (e: Self)
        ensures
            e.event_id == event_id,
            e.timestamp_ns == timestamp_ns,
            e.thread_id == thread_id,
            e.event_type == event_type,
            e.location == location,
            e.data == data,
    {
        TraceEvent { event_id, timestamp_ns, thread_id, event_type, location, data }
    }
}

fn clone_opt_string(s: &Option<String>) -> (r: Option<String>)
    ensures
        r == *s,
{
    match s {
        Some(v) => Some(v.clone()),
        None => None,
    }
}

impl Clone for SourceLocation {
    fn clone(&self) -> (r: Self)
        ensures
            r == *self,
    {
        SourceLocation {
            file: clone_opt_string(&self.file),
            line: self.line,
            column: self.column,
            function: clone_opt_string(&self.function),
            address: self.address,
        }
    }
}

impl Clone for VariableInfo {
    fn clone(&self) -> (r: Self)
        ensures
            r == *self,
    {
        VariableInfo {
            name: self.name.clone(),
            value: self.value.clone(),
            value_type: self.value_type.clone(),
            address: self.address,
        }
    }
}

impl Clone for EventData {
    fn clone(&self) -> (r: Self)
        ensures
            r == *self,
    {
        match self {
            EventData::Empty => EventData::Empty,
            EventData::Variable(v) => EventData::Variable(v.clone()),
            EventData::Memory { address, size, data_hex } => EventData::Memory {
                address: *address,
                size: *size,
                data_hex: clone_opt_string(data_hex),
            },
            EventData::Signal { signal_name } => EventData::Signal { signal_name: signal_name.clone() },
            EventData::Other => EventData::Other,
        }
    }
}

impl Clone for TraceEvent {
    fn clone(&self) -> (r: Self)
        ensures
            r == *self,
    {
        TraceEvent {
            event_id: self.event_id,
            timestamp_ns: self.timestamp_ns,
            thread_id: self.thread_id,
            event_type: self.event_type,
            location: self.location.clone(),
            data: self.data.clone(),
        }
    }
}

} // verus!
