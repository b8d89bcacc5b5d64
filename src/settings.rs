//! User preferences and the process selection.
use vstd::prelude::*;
use crate::data_types::{DataType, Endianness};
use crate::scope::SearchScope;

verus! {

/// The default size of one remote read: 128 MiB.
pub const DEFAULT_SEARCH_BUFFER_SIZE: usize = 134217728;

pub struct Settings {
    pub show_settings: bool,
    pub default_search_scope: SearchScope,
    pub default_data_type: DataType,
    pub default_endianness: Endianness,
    pub search_buffer_size: usize,
}

impl Default for Settings {
    fn default() -> (r: Settings)
        ensures
            !r.show_settings,
            r.default_search_scope == SearchScope::Both,
            r.default_data_type == DataType::U64,
            r.default_endianness == Endianness::Native,
            r.search_buffer_size == DEFAULT_SEARCH_BUFFER_SIZE,
    {
        Settings {
            show_settings: false,
            default_search_scope: SearchScope::Both,
            default_data_type: DataType::U64,
            default_endianness: Endianness::Native,
            search_buffer_size: DEFAULT_SEARCH_BUFFER_SIZE,
        }
    }
}

impl Settings {
    /// Shows the settings window if hidden, hides it if shown.
    pub fn toggle(&mut self)
        ensures
            final(self).show_settings == !old(self).show_settings,
            final(self).default_search_scope == old(self).default_search_scope,
            final(self).default_data_type == old(self).default_data_type,
            final(self).default_endianness == old(self).default_endianness,
            final(self).search_buffer_size == old(self).search_buffer_size,
    {
        self.show_settings = !self.show_settings;
    }
}

/// A running process as listed to the user.
pub struct Process {
    pub pid: i32,
    pub uid: u32,
    pub cmd: String,
    pub selected: bool,
}

/// Whether two processes hold the same fields.
pub open spec fn same_process(a: Process, b: Process) -> bool {
    a.pid == b.pid && a.uid == b.uid && a.cmd@ == b.cmd@ && a.selected == b.selected
}

/// The selected processes, in order.
pub open spec fn selected_of(ps: Seq<Process>) -> Seq<Process>
    decreases ps.len(),
{
    if ps.len() == 0 {
        Seq::empty()
    } else {
        let rest = selected_of(ps.drop_last());
        if ps.last().selected { rest.push(ps.last()) } else { rest }
    }
}

impl Process {
    /// A copy of the process.
    pub fn duplicate(&self) -> (r: Process)
        ensures
            same_process(r, *self),
    {
        Process { pid: self.pid, uid: self.uid, cmd: self.cmd.clone(), selected: self.selected }
    }
}

/// The list of processes the user picks from.
pub struct ProcessPicker {
    processes: Vec<Process>,
}

impl ProcessPicker {
    pub closed spec fn listed(&self) -> Seq<Process> {
        self.processes@
    }

    /// A picker over the given processes.
    pub fn new(processes: Vec<Process>) -> (r: ProcessPicker)
        ensures
            r.listed() == processes@,
    {
        ProcessPicker { processes }
    }

    pub fn processes(&self) -> (r: &Vec<Process>)
        ensures
            r@ == self.listed(),
    {
        &self.processes
    }

    /// Marks process number `index` as selected or not; other indices change nothing.
    pub fn set_selected(&mut self, index: usize, selected: bool)
        ensures
            final(self).listed().len() == old(self).listed().len(),
            forall|j: int| 0 <= j < old(self).listed().len() && j != index ==> #[trigger] final(self).listed()[j] == old(self).listed()[j],
            index < old(self).listed().len() ==> same_process(
                final(self).listed()[index as int],
                Process { selected, ..old(self).listed()[index as int] },
            ),
            index >= old(self).listed().len() ==> final(self).listed() == old(self).listed(),
    {
        if index < self.processes.len() {
            let p = self.processes[index].duplicate();
            self.processes.set(index, Process { selected, ..p });
        }
    }

    /// Copies of the selected processes, in list order.
    pub fn selected_processes(&self) -> (r: Vec<Process>)
        ensures
            r@.len() == selected_of(self.listed()).len(),
            forall|i: int| 0 <= i < r@.len() ==> same_process(#[trigger] r@[i], selected_of(self.listed())[i]),
    {
        let mut out: Vec<Process> = Vec::new();
        let mut i: usize = 0;
        while i < self.processes.len()
            invariant
                i <= self.processes.len(),
                out@.len() == selected_of(self.processes@.take(i as int)).len(),
                forall|k: int| 0 <= k < out@.len() ==> same_process(#[trigger] out@[k], selected_of(self.processes@.take(i as int))[k]),
            decreases self.processes.len() - i,
        {
            assert(self.processes@.take(i + 1).drop_last() =~= self.processes@.take(i as int));
            if self.processes[i].selected {
                let p = self.processes[i].duplicate();
                out.push(p);
            }
            i = i + 1;
        }
        assert(self.processes@.take(self.processes.len() as int) =~= self.processes@);
        out
    }
}

} // verus!
