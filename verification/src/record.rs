use vstd::prelude::*;

verus! {

/// One process taken from the listing: its identifier as the listing printed
/// it, the user that owns it, and its command name.
#[derive(Clone, Debug, PartialEq, Eq)]
pub struct ProcessInfo {
    pub pid: String,
    pub owner: String,
    pub command: String,
}

/// The mathematical content of a `ProcessInfo`: its three fields as
/// character sequences.
pub ghost struct ProcessModel {
    pub pid: Seq<char>,
    pub owner: Seq<char>,
    pub command: Seq<char>,
}

impl View for ProcessInfo {
    type V = ProcessModel;

    open spec fn view(&self) -> ProcessModel {
        ProcessModel { pid: self.pid@, owner: self.owner@, command: self.command@ }
    }
}

/// The models of a sequence of records, element by element.
pub open spec fn process_models(s: Seq<ProcessInfo>) -> Seq<ProcessModel> {
    s.map_values(|p: ProcessInfo| p@)
}

impl ProcessInfo {
    /// An owned copy of this record.
    pub fn duplicate(&self) -> (r: ProcessInfo)
        ensures
            r@ == self@,
    {
        ProcessInfo {
            pid: self.pid.clone(),
            owner: self.owner.clone(),
            command: self.command.clone(),
        }
    }
}

} // verus!
