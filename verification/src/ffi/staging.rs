//! Values that are handed in before the platform can use them.

use std::collections::HashMap;

use vstd::prelude::*;
use vstd::string::*;

use crate::engine::config::{
    document_of, json_contents, json_reading, json_text, json_value, parse_json, read_json,
    write_json, DocModel, Document,
};
use crate::ffi::{failure, success, AetherError, Outcome};

verus! {

/// A TUN device that was handed in: its file descriptor and MTU.
#[derive(Clone, Copy, Debug, PartialEq, Eq, Structural)]
pub struct TunAttachment {
    /// File descriptor.
    pub fd: i32,
    /// MTU of the interface.
    pub mtu: i32,
}

/// What was handed in, by handle.
pub struct Staging {
    tun: HashMap<usize, TunAttachment>,
    split: HashMap<usize, String>,
}

/// The compact form of a JSON object, `None` where a text is no JSON object, by what
/// the text says and by the compact form of that.
pub open spec fn object_form(reading: DocModel, compact: Seq<char>) -> Option<Seq<char>> {
    match reading {
        DocModel::Table(_) => Some(compact),
        _ => None,
    }
}

/// The compact form of a JSON object, by what it says and by its compact form.
pub fn object_text(reading: &Document, compact: String) -> (r: Option<String>)
    ensures
        match (r, object_form(reading.model(), compact@)) {
            (Some(s), Some(m)) => s@ == m,
            (None, None) => true,
            _ => false,
        },
{
    match reading {
        Document::Table(_) => Some(compact),
        _ => None,
    }
}

/// The compact form of the JSON object that a text spells, `None` where it spells
/// none.
pub open spec fn compact_object(text: Seq<char>) -> Option<Seq<char>> {
    match json_value(text) {
        Ok(value) => object_form(json_contents(value), json_text(value)),
        Err(_) => None,
    }
}

/// The compact form of the JSON object that a text spells.
fn compacted(text: &str) -> (r: Option<String>)
    ensures
        match (r, compact_object(text@)) {
            (Some(s), Some(m)) => s@ == m,
            (None, None) => true,
            _ => false,
        },
{
    match read_json(text) {
        Ok(value) => {
            let compact = write_json(&value);
            object_text(&document_of(value), compact)
        },
        Err(_) => None,
    }
}

impl Staging {
    /// The TUN devices.
    pub closed spec fn spec_tun(&self) -> Map<usize, TunAttachment> {
        self.tun@
    }

    /// The split configurations.
    pub closed spec fn spec_split(&self) -> Map<usize, Seq<char>> {
        self.split@.map_values(|s: String| s@)
    }

    /// Nothing was handed in.
    pub fn new() -> (r: Self)
        ensures
            r.spec_tun() == Map::<usize, TunAttachment>::empty(),
            r.spec_split() == Map::<usize, Seq<char>>::empty(),
    {
        broadcast use vstd::std_specs::hash::group_hash_axioms;

        let r = Staging { tun: HashMap::new(), split: HashMap::new() };
        assert(r.spec_split() =~= Map::<usize, Seq<char>>::empty());
        r
    }

    /// Takes a TUN device in, in place of an earlier one.
    pub fn stage_tun(&mut self, handle: usize, fd: i32, mtu: i32)
        ensures
            final(self).spec_tun() == old(self).spec_tun().insert(
                handle,
                (TunAttachment { fd, mtu }),
            ),
            final(self).spec_split() == old(self).spec_split(),
    {
        broadcast use vstd::std_specs::hash::group_hash_axioms;

        self.tun.insert(handle, TunAttachment { fd, mtu });
    }

    /// The TUN device that was handed in.
    pub fn staged_tun(&self, handle: usize) -> (r: Option<TunAttachment>)
        ensures
            r == (if self.spec_tun().contains_key(handle) {
                Some(self.spec_tun()[handle])
            } else {
                None
            }),
    {
        broadcast use vstd::std_specs::hash::group_hash_axioms;

        match self.tun.get(&handle) {
            Some(t) => Some(*t),
            None => None,
        }
    }

    /// Takes a split configuration in, in place of an earlier one.
    pub fn stage_split(&mut self, handle: usize, doc: String)
        ensures
            final(self).spec_split() == old(self).spec_split().insert(handle, doc@),
            final(self).spec_tun() == old(self).spec_tun(),
    {
        broadcast use vstd::std_specs::hash::group_hash_axioms;

        let ghost before = self.spec_split();
        self.split.insert(handle, doc);
        assert(self.spec_split() =~= before.insert(handle, doc@));
    }

    /// The split configuration that was handed in.
    pub fn staged_split(&self, handle: usize) -> (r: Option<String>)
        ensures
            match r {
                Some(s) => self.spec_split().contains_key(handle) && s@
                    == self.spec_split()[handle],
                None => !self.spec_split().contains_key(handle),
            },
    {
        broadcast use vstd::std_specs::hash::group_hash_axioms;

        match self.split.get(&handle) {
            Some(s) => Some(s.clone()),
            None => None,
        }
    }

    /// Takes a TUN device in for a client: the handle is checked first, then the
    /// descriptor and the MTU.
    pub fn set_tun_fd(&mut self, known: bool, handle: usize, fd: i32, mtu: i32) -> (r: Outcome)
        ensures
            final(self).spec_split() == old(self).spec_split(),
            if !known {
                &&& r.says(AetherError::InvalidHandle, Some("Invalid client handle"@))
                &&& final(self).spec_tun() == old(self).spec_tun()
            } else if fd < 0 || mtu <= 0 {
                &&& r.says(AetherError::InvalidArgument, Some("Invalid tun fd or mtu"@))
                &&& final(self).spec_tun() == old(self).spec_tun()
            } else {
                &&& r.says(AetherError::Success, None)
                &&& final(self).spec_tun() == old(self).spec_tun().insert(
                    handle,
                    (TunAttachment { fd, mtu }),
                )
            },
    {
        if !known {
            return failure(AetherError::InvalidHandle, "Invalid client handle");
        }
        if fd < 0 || mtu <= 0 {
            return failure(AetherError::InvalidArgument, "Invalid tun fd or mtu");
        }
        self.stage_tun(handle, fd, mtu);
        success()
    }

    /// Takes a split configuration in for a client, given its compact form or
    /// `None` where it is no JSON object.
    pub fn stage_split_of(&mut self, known: bool, handle: usize, compact: Option<String>) -> (r:
        Outcome)
        ensures
            final(self).spec_tun() == old(self).spec_tun(),
            if !known {
                &&& r.says(AetherError::InvalidHandle, Some("Invalid client handle"@))
                &&& final(self).spec_split() == old(self).spec_split()
            } else {
                match compact {
                    None => {
                        &&& r.says(
                            AetherError::InvalidArgument,
                            Some("Invalid split config JSON"@),
                        )
                        &&& final(self).spec_split() == old(self).spec_split()
                    },
                    Some(doc) => {
                        &&& r.says(AetherError::Success, None)
                        &&& final(self).spec_split() == old(self).spec_split().insert(handle, doc@)
                    },
                }
            },
    {
        if !known {
            return failure(AetherError::InvalidHandle, "Invalid client handle");
        }
        match compact {
            None => failure(AetherError::InvalidArgument, "Invalid split config JSON"),
            Some(doc) => {
                self.stage_split(handle, doc);
                success()
            },
        }
    }

    /// Takes a split configuration in for a client.
    pub fn set_split_config(&mut self, known: bool, handle: usize, text: &str) -> (r: Outcome)
        ensures
            final(self).spec_tun() == old(self).spec_tun(),
            if !known {
                &&& r.says(AetherError::InvalidHandle, Some("Invalid client handle"@))
                &&& final(self).spec_split() == old(self).spec_split()
            } else {
                match compact_object(text@) {
                    None => {
                        &&& r.says(
                            AetherError::InvalidArgument,
                            Some("Invalid split config JSON"@),
                        )
                        &&& final(self).spec_split() == old(self).spec_split()
                    },
                    Some(doc) => {
                        &&& r.says(AetherError::Success, None)
                        &&& final(self).spec_split() == old(self).spec_split().insert(handle, doc)
                    },
                }
            },
    {
        self.stage_split_of(known, handle, compacted(text))
    }

    /// Takes a split configuration in for a client as it stands: any JSON text.
    pub fn set_split_json(&mut self, known: bool, handle: usize, text: &str) -> (r: AetherError)
        ensures
            final(self).spec_tun() == old(self).spec_tun(),
            if !known {
                &&& r == AetherError::InvalidHandle
                &&& final(self).spec_split() == old(self).spec_split()
            } else if json_reading(text@) is Err {
                &&& r == AetherError::InvalidArgument
                &&& final(self).spec_split() == old(self).spec_split()
            } else {
                &&& r == AetherError::Success
                &&& final(self).spec_split() == old(self).spec_split().insert(handle, text@)
            },
    {
        if !known {
            return AetherError::InvalidHandle;
        }
        match parse_json(text) {
            Err(_) => AetherError::InvalidArgument,
            Ok(_) => {
                self.stage_split(handle, text.to_owned());
                AetherError::Success
            },
        }
    }
}

/// Only a JSON object is taken in, in its compact form; a list, a text or a number is not, and
/// neither is what is no JSON.
pub proof fn only_objects_are_compacted(text: Seq<char>)
    ensures
        compact_object(text) is Some <==> (json_value(text) matches Ok(value)
            && json_contents(value) is Table),
        compact_object(text) matches Some(compact) ==> (json_value(text) matches Ok(value)
            && compact == json_text(value)),
{
}

} // verus!
