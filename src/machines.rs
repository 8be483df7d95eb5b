use vstd::prelude::*;
use crate::host::now_unix;
use crate::strmap::StrMap;
use vstd::string::*;
use crate::error::{DriftersError, Result};
use crate::text::{chars_eq_str, chars_of, component_name_ok, is_component_name};

verus! {

/// What the repository knows of one machine.
#[derive(Debug, Clone)]
pub struct MachineInfo {
    pub os: String,
    /// When the machine last registered, in seconds since the Unix epoch.
    pub last_sync: Option<i64>,
}

/// The machines known to the repository, by machine id.
#[derive(Debug, Clone)]
pub struct MachineRegistry {
    pub machines: StrMap<MachineInfo>,
}

/// Why a proposed machine id cannot be used.
#[derive(Debug, Clone, Copy, PartialEq, Eq, Structural)]
pub enum MachineIdProblem {
    Empty,
    HasSeparator,
    Taken,
}

impl MachineRegistry {
    pub fn new() -> (r: Self)
        ensures
            r.machines.wf(),
            r.machines@ == Map::<Seq<char>, MachineInfo>::empty(),
    {
        MachineRegistry { machines: StrMap::new() }
    }

    /// Records `machine_id` as running `os`, registered now.
    pub fn register_machine(&mut self, machine_id: String, os: String)
        requires
            old(self).machines.wf(),
        ensures
            final(self).machines.wf(),
            final(self).machines@ == old(self).machines@.insert(
                machine_id@,
                final(self).machines@[machine_id@],
            ),
            final(self).machines@[machine_id@].os@ == os@,
            final(self).machines@[machine_id@].last_sync is Some,
    {
        let now = now_unix();
        let ghost id = machine_id@;
        let info = MachineInfo { os, last_sync: Some(now) };
        let ghost i = info;
        self.machines.insert(machine_id, info);
        assert(self.machines@[id] == i);
    }

    /// Whether `id` can name a new machine: not empty, free of path separators, and not
    /// taken.
    pub fn check_new_machine_id(&self, id: &str) -> (r: Option<MachineIdProblem>)
        requires
            self.machines.wf(),
        ensures
            r == if id@.len() == 0 {
                Some(MachineIdProblem::Empty)
            } else if id@.contains('/') || id@.contains('\\') {
                Some(MachineIdProblem::HasSeparator)
            } else if self.machines@.contains_key(id@) {
                Some(MachineIdProblem::Taken)
            } else {
                None::<MachineIdProblem>
            },
    {
        let c = chars_of(id);
        if c.len() == 0 {
            return Some(MachineIdProblem::Empty);
        }
        let mut i: usize = 0;
        while i < c.len()
            invariant
                c@ == id@,
                i <= c@.len(),
                forall|j: int| 0 <= j < i ==> c@[j] != '/' && c@[j] != '\\',
            decreases c@.len() - i,
        {
            if c[i] == '/' || c[i] == '\\' {
                return Some(MachineIdProblem::HasSeparator);
            }
            i = i + 1;
        }
        if self.machines.get(id).is_some() {
            Some(MachineIdProblem::Taken)
        } else {
            None
        }
    }
}

impl MachineRegistry {
    /// Gives the machine `old_id` the id `new_id`. The new id must be a single path
    /// component, differ from the old one and be free; the old one must be registered.
    pub fn rename_machine(&mut self, old_id: &str, new_id: &str) -> (r: Result<()>)
        requires
            old(self).machines.wf(),
        ensures
            final(self).machines.wf(),
            r is Ok <==> (is_component_name(new_id@) && new_id@ != old_id@
                && old(self).machines@.contains_key(old_id@) && !old(self).machines@.contains_key(new_id@)),
            r is Ok ==> final(self).machines@ == old(self).machines@.remove(old_id@).insert(
                new_id@,
                old(self).machines@[old_id@],
            ),
            r is Err ==> final(self).machines@ == old(self).machines@,
            r matches Err(e) ==> e matches DriftersError::Config(_),
    {
        if !component_name_ok(new_id) {
            return Err(DriftersError::config("New machine ID cannot be empty or contain '/' or '\\'."));
        }
        if chars_eq_str(&chars_of(new_id), old_id) {
            return Err(DriftersError::config("New machine ID is the same as the current one."));
        }
        if self.machines.get(old_id).is_none() {
            return Err(DriftersError::Config(String::from_str("Machine not found in registry: ").concat(old_id)));
        }
        if self.machines.get(new_id).is_some() {
            return Err(DriftersError::Config(String::from_str("Machine ID is already registered: ").concat(new_id)));
        }
        match self.machines.remove(old_id) {
            Some(info) => {
                self.machines.insert(String::from_str(new_id), info);
                Ok(())
            },
            None => Err(DriftersError::config("Machine disappeared from the registry.")),
        }
    }

    /// Forgets the machine `machine_id`; an error when it is not registered.
    pub fn remove_machine(&mut self, machine_id: &str) -> (r: Result<()>)
        requires
            old(self).machines.wf(),
        ensures
            final(self).machines.wf(),
            r is Ok <==> old(self).machines@.contains_key(machine_id@),
            final(self).machines@ == old(self).machines@.remove(machine_id@),
            r matches Err(e) ==> e matches DriftersError::Config(_),
    {
        match self.machines.remove(machine_id) {
            Some(_) => Ok(()),
            None => Err(DriftersError::Config(String::from_str("Machine not found in registry: ").concat(machine_id))),
        }
    }
}

impl Default for MachineRegistry {
    fn default() -> (r: Self)
        ensures
            r.machines.wf(),
            r.machines@ == Map::<Seq<char>, MachineInfo>::empty(),
    {
        MachineRegistry::new()
    }
}

} // verus!
