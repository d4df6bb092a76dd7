//! Choosing the topology that a display set gets when it connects.
//!
//! The change takes several accesses to the registry. The value that a step
//! gives says what to do next, and takes the answer.

use vstd::prelude::*;

use crate::error::{call_failed, DisplayError};
use crate::topology::Topology;

verus! {

/// Next, the connectivity database is to be opened for reading and writing.
#[derive(Debug)]
pub struct RecentChange {
    /// The name of the entry to change.
    pub key_name: String,
    pub topology: Topology,
    /// The value of the entry that holds the configuration of the topology.
    pub value_name: &'static str,
}

/// Next, the entry `key_name` is to be opened for reading and writing.
#[derive(Debug)]
pub struct RecentEntry {
    pub key_name: String,
    pub topology: Topology,
    pub value_name: &'static str,
}

/// Next, the value `value_name` of the entry is to be read.
#[derive(Debug)]
pub struct RecentValue {
    pub topology: Topology,
    pub value_name: &'static str,
}

/// Next, `config_id` is to be written into the value `value_name` of the entry,
/// which is `Recent`.
#[derive(Debug)]
pub struct RecentWrite {
    pub value_name: &'static str,
    pub config_id: String,
}

/// Starts to set the `Recent` value of a connectivity entry to the configuration
/// ID stored for `topology`. Both the entry and the stored value must already
/// exist.
pub fn set_connectivity_recent(key_name: &str, topology: &Topology) -> (next: Result<
    RecentChange,
    DisplayError,
>)
    ensures
        match topology.registry_value() {
            Some(value_name) => {
                &&& next is Ok
                &&& next->Ok_0.key_name@ == key_name@
                &&& next->Ok_0.topology == *topology
                &&& next->Ok_0.value_name@ == value_name
            },
            None => next is Err && next->Err_0@ == crate::error::ErrorModel::WinAPI(
                "Cannot set Recent to Unknown topology"@,
            ),
        },
{
    match topology.as_registry_value() {
        Some(value_name) => Ok(
            RecentChange { key_name: key_name.to_owned(), topology: *topology, value_name },
        ),
        None => Err(DisplayError::WinAPI("Cannot set Recent to Unknown topology".to_owned())),
    }
}

impl RecentChange {
    /// Takes the answer to opening the database.
    pub fn database_opened(self, reply: Result<(), String>) -> (next: Result<
        RecentEntry,
        DisplayError,
    >)
        ensures
            match reply {
                Ok(_) => next == Ok::<RecentEntry, DisplayError>(
                    RecentEntry {
                        key_name: self.key_name,
                        topology: self.topology,
                        value_name: self.value_name,
                    },
                ),
                Err(said) => next is Err && next->Err_0@ == crate::error::ErrorModel::WinAPI(
                    "Cannot open Connectivity key (run as administrator): "@ + said@,
                ),
            },
    {
        match reply {
            Ok(_) => Ok(
                RecentEntry {
                    key_name: self.key_name,
                    topology: self.topology,
                    value_name: self.value_name,
                },
            ),
            Err(said) => Err(
                call_failed(
                    "Cannot open Connectivity key (run as administrator): ",
                    said.as_str(),
                ),
            ),
        }
    }
}

impl RecentEntry {
    /// Takes the answer to opening the entry.
    pub fn entry_opened(self, reply: Result<(), String>) -> (next: Result<
        RecentValue,
        DisplayError,
    >)
        ensures
            match reply {
                Ok(_) => next == Ok::<RecentValue, DisplayError>(
                    RecentValue { topology: self.topology, value_name: self.value_name },
                ),
                Err(said) => next is Err && next->Err_0@ == crate::error::ErrorModel::WinAPI(
                    "Key '"@ + self.key_name@ + "' not found: "@ + said@,
                ),
            },
    {
        match reply {
            Ok(_) => Ok(RecentValue { topology: self.topology, value_name: self.value_name }),
            Err(said) => {
                let what = "Key '".to_owned().concat(self.key_name.as_str()).concat(
                    "' not found: ",
                );
                Err(call_failed(what.as_str(), said.as_str()))
            },
        }
    }
}

impl RecentValue {
    /// Takes the stored configuration ID.
    pub fn value_read(self, reply: Result<String, String>) -> (next: Result<
        RecentWrite,
        DisplayError,
    >)
        ensures
            match reply {
                Ok(config_id) => {
                    &&& next is Ok
                    &&& next->Ok_0.value_name@ == crate::connectivity::recent_value()
                    &&& next->Ok_0.value_name@ == "Recent"@
                    &&& next->Ok_0.config_id == config_id
                },
                Err(said) => next is Err && next->Err_0@ == crate::error::ErrorModel::WinAPI(
                    "Topology '"@ + self.topology.as_text()
                        + "' has no stored value in this entry: "@ + said@,
                ),
            },
    {
        match reply {
            Ok(config_id) => Ok(RecentWrite { value_name: "Recent", config_id }),
            Err(said) => {
                let name = self.topology.text();
                let what = "Topology '".to_owned().concat(name.as_str()).concat(
                    "' has no stored value in this entry: ",
                );
                Err(call_failed(what.as_str(), said.as_str()))
            },
        }
    }
}

impl RecentWrite {
    /// Takes the answer to writing the value.
    pub fn written(self, reply: Result<(), String>) -> (result: Result<(), DisplayError>)
        ensures
            match reply {
                Ok(_) => result is Ok,
                Err(said) => result is Err && result->Err_0@ == crate::error::ErrorModel::WinAPI(
                    "Failed to write Recent: "@ + said@,
                ),
            },
    {
        match reply {
            Ok(_) => Ok(()),
            Err(said) => Err(call_failed("Failed to write Recent: ", said.as_str())),
        }
    }
}

} // verus!
