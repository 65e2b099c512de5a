//! Hosts and links: the capacity-bounded nodes agents live in, and the
//! exclusive gates that join two of them.
//!
//! Entities refer to each other by index: a host names its links by
//! position in the world's link list, and a link names its two hosts by
//! position in the world's host list.

pub mod link;

use vstd::prelude::*;

use crate::exa::Exa;
use crate::file::{File, FileView};
use crate::register::{
    AccessError, BasicRegister, HardwareRegister, HardwareRegisterView, RegisterView,
};
use crate::value::Value;

verus! {

/// Why a host refused an operation.
#[derive(Debug, PartialEq, Clone)]
pub enum HostError {
    LinkDoesNotExist(String),
    NoRoomForFile(File),
}

/// The model of a host: its id, its limit, its local message cell, its
/// gates, and what it currently holds.
#[verifier::ext_equal]
pub struct HostView {
    pub id: Seq<char>,
    pub occupancy_limit: int,
    pub local_m: RegisterView,
    pub links: Map<Seq<char>, int>,
    pub files: Seq<FileView>,
    pub pending_files: Seq<FileView>,
    pub hardware_registers: Seq<HardwareRegisterView>,
    pub system_exa_ids: Seq<Seq<char>>,
    pub occupying_exa_ids: Seq<Seq<char>>,
}

/// How many slots of a host are taken: files, pending files, hardware
/// registers, pre-placed agents, and resident agent ids all count.
pub open spec fn host_used(h: HostView) -> int {
    h.files.len() + h.pending_files.len() + h.hardware_registers.len()
        + h.system_exa_ids.len() + h.occupying_exa_ids.len() as int
}

/// The index of the file with the given id, scanning front first.
pub open spec fn find_file(s: Seq<FileView>, id: Seq<char>) -> Option<int>
    decreases s.len(),
{
    if s.len() == 0 {
        None
    } else if s[0].id == id {
        Some(0int)
    } else {
        match find_file(s.drop_first(), id) {
            Some(k) => Some(k + 1),
            None => None,
        }
    }
}

/// The index of the hardware register with the given id.
pub open spec fn find_hw(s: Seq<HardwareRegisterView>, id: Seq<char>) -> Option<int>
    decreases s.len(),
{
    if s.len() == 0 {
        None
    } else if s[0].id == id {
        Some(0int)
    } else {
        match find_hw(s.drop_first(), id) {
            Some(k) => Some(k + 1),
            None => None,
        }
    }
}

/// The index of an id in an id list.
pub open spec fn find_id(s: Seq<Seq<char>>, id: Seq<char>) -> Option<int>
    decreases s.len(),
{
    if s.len() == 0 {
        None
    } else if s[0] == id {
        Some(0int)
    } else {
        match find_id(s.drop_first(), id) {
            Some(k) => Some(k + 1),
            None => None,
        }
    }
}

/// A host never holds more than its occupancy limit, every file it
/// holds is well formed, and nothing is held twice: file ids, pending
/// file ids (also against held ones), hardware register ids and
/// resident agent ids are each unique.
pub open spec fn host_wf(h: HostView) -> bool {
    &&& host_used(h) <= h.occupancy_limit
    &&& (forall|i: int| 0 <= i < h.files.len() ==> crate::file::file_wf(#[trigger] h.files[i]))
    &&& (forall|i: int|
        0 <= i < h.pending_files.len() ==> crate::file::file_wf(#[trigger] h.pending_files[i]))
    &&& (forall|i: int, j: int|
        0 <= i < j < h.files.len() ==> (#[trigger] h.files[i]).id != (#[trigger] h.files[j]).id)
    &&& (forall|i: int, j: int|
        0 <= i < j < h.pending_files.len() ==> (#[trigger] h.pending_files[i]).id
            != (#[trigger] h.pending_files[j]).id)
    &&& (forall|i: int, j: int|
        0 <= i < h.files.len() && 0 <= j < h.pending_files.len() ==> (
        #[trigger] h.files[i]).id != (#[trigger] h.pending_files[j]).id)
    &&& (forall|i: int, j: int|
        0 <= i < j < h.hardware_registers.len() ==> (#[trigger] h.hardware_registers[i]).id != (
        #[trigger] h.hardware_registers[j]).id)
    &&& (forall|i: int, j: int|
        0 <= i < j < h.occupying_exa_ids.len() ==> #[trigger] h.occupying_exa_ids[i]
            != #[trigger] h.occupying_exa_ids[j])
}

/// A capacity-bounded node: it holds files, pending files, hardware
/// registers, pre-placed agents and resident agent ids, knows its gates,
/// and carries one local message cell.
#[derive(Debug)]
pub struct Host {
    pub id: String,
    pub(crate) occupancy_limit: usize,
    pub(crate) local_m_register: BasicRegister,
    pub(crate) links: Vec<(String, usize)>,
    pub(crate) files: Vec<File>,
    pub(crate) pending_files: Vec<File>,
    pub(crate) hardware_registers: Vec<HardwareRegister>,
    pub(crate) system_exas: Vec<Exa>,
    pub(crate) occupying_exa_ids: Vec<String>,
}

/// The table the registered gates stand for; the earliest entry of an
/// id is the one that counts.
pub open spec fn gates_map(s: Seq<(String, usize)>) -> Map<Seq<char>, int> {
    Map::new(
        |g: Seq<char>| crate::program::find_mark(s, g) is Some,
        |g: Seq<char>| crate::program::find_mark(s, g)->0,
    )
}

impl View for Host {
    type V = HostView;

    closed spec fn view(&self) -> HostView {
        HostView {
            id: self.id@,
            occupancy_limit: self.occupancy_limit as int,
            local_m: self.local_m_register@,
            links: gates_map(self.links@),
            files: self.files@.map_values(|f: File| f@),
            pending_files: self.pending_files@.map_values(|f: File| f@),
            hardware_registers: self.hardware_registers@.map_values(
                |r: HardwareRegister| r@,
            ),
            system_exa_ids: self.system_exas@.map_values(|e: Exa| e@.id),
            occupying_exa_ids: self.occupying_exa_ids@.map_values(|s: String| s@),
        }
    }
}

impl Host {
    /// A host with the given id and occupancy limit, holding nothing.
    pub fn new(id: &str, occupancy_limit: usize) -> (h: Self)
        ensures
            h@.id == id@,
            h@.occupancy_limit == occupancy_limit as int,
            h@.local_m.id == "M"@,
            h@.local_m.value is None,
            h@.links == Map::<Seq<char>, int>::empty(),
            h@.files == Seq::<FileView>::empty(),
            h@.pending_files == Seq::<FileView>::empty(),
            h@.hardware_registers == Seq::<HardwareRegisterView>::empty(),
            h@.system_exa_ids == Seq::<Seq<char>>::empty(),
            h@.occupying_exa_ids == Seq::<Seq<char>>::empty(),
            host_wf(h@),
    {
        let h = Host {
            id: id.to_owned(),
            occupancy_limit,
            local_m_register: BasicRegister::new("M"),
            links: Vec::new(),
            files: Vec::new(),
            pending_files: Vec::new(),
            hardware_registers: Vec::new(),
            system_exas: Vec::new(),
            occupying_exa_ids: Vec::new(),
        };
        proof {
            assert(h@.links =~= Map::<Seq<char>, int>::empty());
            assert(h@.files =~= Seq::<FileView>::empty());
            assert(h@.pending_files =~= Seq::<FileView>::empty());
            assert(h@.hardware_registers =~= Seq::<HardwareRegisterView>::empty());
            assert(h@.system_exa_ids =~= Seq::<Seq<char>>::empty());
            assert(h@.occupying_exa_ids =~= Seq::<Seq<char>>::empty());
        }
        h
    }

    /// Registers a gate under the given id, pointing at a link by its
    /// index in the world's link list. A newer gate shadows an older one
    /// of the same id.
    pub fn insert_link(&mut self, gate_id: &str, link: usize)
        ensures
            final(self)@ == (HostView {
                links: old(self)@.links.insert(gate_id@, link as int),
                ..old(self)@
            }),
            host_wf(old(self)@) ==> host_wf(final(self)@),
    {
        let ghost old_links = self.links@;
        self.links.insert(0, (gate_id.to_owned(), link));
        proof {
            assert(self.links@.drop_first() =~= old_links);
            assert(gates_map(self.links@) =~= gates_map(old_links).insert(
                gate_id@,
                link as int,
            ));
            assert(final(self)@ =~= (HostView {
                links: old(self)@.links.insert(gate_id@, link as int),
                ..old(self)@
            }));
        }
    }

    /// Whether there is room for one more slot-taking item.
    pub fn has_available_space(&self) -> (r: bool)
        requires
            host_wf(self@),
        ensures
            r == (host_used(self@) < self@.occupancy_limit),
    {
        let used = self.files.len() + self.pending_files.len()
            + self.hardware_registers.len() + self.system_exas.len()
            + self.occupying_exa_ids.len();
        used < self.occupancy_limit
    }

    /// Stores a file; the host must have room and not hold that id yet.
    pub fn insert_file(&mut self, file: File)
        requires
            host_wf(old(self)@),
            host_used(old(self)@) < old(self)@.occupancy_limit,
            find_file(old(self)@.files, file@.id) is None,
            find_file(old(self)@.pending_files, file@.id) is None,
            crate::file::file_wf(file@),
        ensures
            final(self)@ == (HostView { files: old(self)@.files.push(file@), ..old(self)@ }),
            host_wf(final(self)@),
    {
        let ghost fv = file@;
        let ghost old_files = self@.files;
        self.files.push(file);
        proof {
            assert(self@.files =~= old_files.push(fv));
            assert(final(self)@ =~= (HostView { files: old(self)@.files.push(fv), ..old(self)@ }));
            lemma_find_none_all_differ(old(self)@.files, fv.id);
            lemma_find_none_all_differ(old(self)@.pending_files, fv.id);
        }
    }

    /// Stores a file among those dropped this cycle, or hands it back
    /// when there is no room.
    pub fn insert_pending_file(&mut self, file: File) -> (r: Result<(), HostError>)
        requires
            host_wf(old(self)@),
            find_file(old(self)@.files, file@.id) is None,
            find_file(old(self)@.pending_files, file@.id) is None,
            crate::file::file_wf(file@),
        ensures
            r is Ok <==> host_used(old(self)@) < old(self)@.occupancy_limit,
            r is Ok ==> final(self)@ == (HostView {
                pending_files: old(self)@.pending_files.push(file@),
                ..old(self)@
            }),
            r matches Err(e) ==> *final(self) == *old(self) && (e matches
                HostError::NoRoomForFile(f) && f@ == file@),
            host_wf(final(self)@),
    {
        if !self.has_available_space() {
            return Err(HostError::NoRoomForFile(file));
        }
        let ghost fv = file@;
        let ghost old_pending = self@.pending_files;
        self.pending_files.push(file);
        proof {
            assert(self@.pending_files =~= old_pending.push(fv));
            assert(final(self)@ =~= (HostView {
                pending_files: old(self)@.pending_files.push(fv),
                ..old(self)@
            }));
            lemma_find_none_all_differ(old(self)@.files, fv.id);
            lemma_find_none_all_differ(old(self)@.pending_files, fv.id);
        }
        Ok(())
    }

    /// Stores a hardware register; the host must have room and not own
    /// that register id yet.
    pub fn insert_hardware_register(&mut self, register: HardwareRegister)
        requires
            host_wf(old(self)@),
            host_used(old(self)@) < old(self)@.occupancy_limit,
            find_hw(old(self)@.hardware_registers, register@.id) is None,
        ensures
            final(self)@ == (HostView {
                hardware_registers: old(self)@.hardware_registers.push(register@),
                ..old(self)@
            }),
            host_wf(final(self)@),
    {
        let ghost rv = register@;
        let ghost old_hw = self@.hardware_registers;
        self.hardware_registers.push(register);
        proof {
            assert(self@.hardware_registers =~= old_hw.push(rv));
            assert(final(self)@ =~= (HostView {
                hardware_registers: old(self)@.hardware_registers.push(rv),
                ..old(self)@
            }));
            lemma_find_hw_none_all_differ(old(self)@.hardware_registers, rv.id);
        }
    }

    /// Stores a pre-placed agent; the host must have room.
    pub fn insert_system_exa(&mut self, exa: Exa)
        requires
            host_wf(old(self)@),
            host_used(old(self)@) < old(self)@.occupancy_limit,
        ensures
            final(self)@ == (HostView {
                system_exa_ids: old(self)@.system_exa_ids.push(exa@.id),
                ..old(self)@
            }),
            host_wf(final(self)@),
    {
        let ghost idv = exa@.id;
        let ghost old_ids = self@.system_exa_ids;
        self.system_exas.push(exa);
        proof {
            assert(self@.system_exa_ids =~= old_ids.push(idv));
            assert(final(self)@ =~= (HostView {
                system_exa_ids: old(self)@.system_exa_ids.push(idv),
                ..old(self)@
            }));
        }
    }

    /// Registers a resident agent id; the host must have room. An id
    /// already present is left as it is.
    pub fn insert_exa_id(&mut self, exa_id: &str)
        requires
            host_wf(old(self)@),
            host_used(old(self)@) < old(self)@.occupancy_limit,
        ensures
            find_id(old(self)@.occupying_exa_ids, exa_id@) is Some ==> *final(self) == *old(
                self,
            ),
            find_id(old(self)@.occupying_exa_ids, exa_id@) is None ==> final(self)@ == (
            HostView {
                occupying_exa_ids: old(self)@.occupying_exa_ids.push(exa_id@),
                ..old(self)@
            }),
            host_wf(final(self)@),
    {
        if self.find_occupying(exa_id).is_some() {
            return;
        }
        let ghost idv = exa_id@;
        let ghost old_ids = self@.occupying_exa_ids;
        self.occupying_exa_ids.push(exa_id.to_owned());
        proof {
            assert(self@.occupying_exa_ids =~= old_ids.push(idv));
            assert(final(self)@ =~= (HostView {
                occupying_exa_ids: old(self)@.occupying_exa_ids.push(idv),
                ..old(self)@
            }));
            lemma_find_id_none_all_differ(old(self)@.occupying_exa_ids, idv);
        }
    }

    /// The position of a resident agent id, if it is here.
    pub(crate) fn find_occupying(&self, exa_id: &str) -> (r: Option<usize>)
        ensures
            match r {
                Some(k) => find_id(self@.occupying_exa_ids, exa_id@) == Some(k as int) && k
                    < self@.occupying_exa_ids.len() && self@.occupying_exa_ids[k as int]
                    == exa_id@,
                None => find_id(self@.occupying_exa_ids, exa_id@) is None,
            },
    {
        let n = self.occupying_exa_ids.len();
        let mut k: usize = 0;
        proof {
            assert(self@.occupying_exa_ids.skip(0) =~= self@.occupying_exa_ids);
        }
        while k < n
            invariant
                k <= n,
                n == self.occupying_exa_ids@.len(),
                ({
                    let ids = self@.occupying_exa_ids;
                    match find_id(ids.skip(k as int), exa_id@) {
                        Some(j) => find_id(ids, exa_id@) == Some(j + k),
                        None => find_id(ids, exa_id@) is None,
                    }
                }),
            decreases n - k,
        {
            proof {
                assert(self@.occupying_exa_ids.skip(k as int).drop_first() =~=
                    self@.occupying_exa_ids.skip(k + 1));
            }
            if crate::text::str_eq(self.occupying_exa_ids[k].as_str(), exa_id) {
                return Some(k);
            }
            k += 1;
        }
        None
    }

    /// Takes the file with the given id out of the held set. An id among
    /// the pending files, or an unknown one, yields nothing; in the
    /// first case the held copy of the id, if any, is still removed.
    pub fn remove_file(&mut self, file_id: &str) -> (r: Option<File>)
        requires
            host_wf(old(self)@),
        ensures
            ({
                let files = old(self)@.files;
                match find_file(files, file_id@) {
                    Some(k) => final(self)@ == (HostView {
                        files: files.remove(k),
                        ..old(self)@
                    }) && (if find_file(old(self)@.pending_files, file_id@) is Some {
                        r is None
                    } else {
                        r matches Some(f) && f@ == files[k]
                    }),
                    None => r is None && *final(self) == *old(self),
                }
            }),
            host_wf(final(self)@),
    {
        match self.find_file_index(file_id) {
            Some(k) => {
                let ghost old_files = self@.files;
                let f = self.files.remove(k);
                proof {
                    assert(self@.files =~= old_files.remove(k as int));
                    assert(self@.files.len() == old_files.len() - 1);
                }
                let r = if self.find_pending(file_id).is_some() {
                    None
                } else {
                    Some(f)
                };
                r
            },
            None => None,
        }
    }

    /// The position of a held (non-pending) file id, if it is here.
    pub(crate) fn find_file_index(&self, file_id: &str) -> (r: Option<usize>)
        ensures
            match r {
                Some(k) => find_file(self@.files, file_id@) == Some(k as int) && k
                    < self@.files.len() && self@.files[k as int].id == file_id@,
                None => find_file(self@.files, file_id@) is None,
            },
    {
        let n = self.files.len();
        let mut k: usize = 0;
        proof {
            assert(self@.files.skip(0) =~= self@.files);
        }
        while k < n
            invariant
                k <= n,
                n == self.files@.len(),
                ({
                    let files = self@.files;
                    match find_file(files.skip(k as int), file_id@) {
                        Some(j) => find_file(files, file_id@) == Some(j + k),
                        None => find_file(files, file_id@) is None,
                    }
                }),
            decreases n - k,
        {
            proof {
                assert(self@.files.skip(k as int).drop_first() =~= self@.files.skip(k + 1));
            }
            if crate::text::str_eq(self.files[k].id_text(), file_id) {
                return Some(k);
            }
            k += 1;
        }
        None
    }

    /// The position of a pending file id, if it is here.
    pub(crate) fn find_pending(&self, file_id: &str) -> (r: Option<usize>)
        ensures
            match r {
                Some(k) => find_file(self@.pending_files, file_id@) == Some(k as int),
                None => find_file(self@.pending_files, file_id@) is None,
            },
    {
        let n = self.pending_files.len();
        let mut k: usize = 0;
        proof {
            assert(self@.pending_files.skip(0) =~= self@.pending_files);
        }
        while k < n
            invariant
                k <= n,
                n == self.pending_files@.len(),
                ({
                    let files = self@.pending_files;
                    match find_file(files.skip(k as int), file_id@) {
                        Some(j) => find_file(files, file_id@) == Some(j + k),
                        None => find_file(files, file_id@) is None,
                    }
                }),
            decreases n - k,
        {
            proof {
                assert(self@.pending_files.skip(k as int).drop_first() =~=
                    self@.pending_files.skip(k + 1));
            }
            if crate::text::str_eq(self.pending_files[k].id_text(), file_id) {
                return Some(k);
            }
            k += 1;
        }
        None
    }

    /// Strikes a resident agent id from the register, handing it back if
    /// it was here.
    pub fn remove_occupying_exa_id(&mut self, exa_id: &str) -> (r: Option<String>)
        requires
            host_wf(old(self)@),
        ensures
            ({
                let ids = old(self)@.occupying_exa_ids;
                match find_id(ids, exa_id@) {
                    Some(k) => (r matches Some(s) && s@ == exa_id@) && final(self)@ == (
                    HostView { occupying_exa_ids: ids.remove(k), ..old(self)@ }),
                    None => r is None && *final(self) == *old(self),
                }
            }),
            host_wf(final(self)@),
    {
        match self.find_occupying(exa_id) {
            Some(k) => {
                let ghost old_ids = self@.occupying_exa_ids;
                let s = self.occupying_exa_ids.remove(k);
                proof {
                    assert(self@.occupying_exa_ids =~= old_ids.remove(k as int));
                    assert(final(self)@ =~= (HostView {
                        occupying_exa_ids: old(self)@.occupying_exa_ids.remove(k as int),
                        ..old(self)@
                    }));
                }
                Some(s)
            },
            None => None,
        }
    }

    /// Strikes one resident agent id, chosen by a random draw, and hands
    /// it back; an empty register yields nothing.
    pub fn remove_random_occupying_exa_id(&mut self) -> (r: Option<String>)
        requires
            host_wf(old(self)@),
        ensures
            old(self)@.occupying_exa_ids.len() == 0 ==> r is None && *final(self) == *old(self),
            old(self)@.occupying_exa_ids.len() > 0 ==> exists|k: int|
                #![trigger old(self)@.occupying_exa_ids.remove(k)]
                0 <= k < old(self)@.occupying_exa_ids.len() && (r matches Some(s) && s@ == old(
                    self,
                )@.occupying_exa_ids[k]) && final(self)@ == (HostView {
                    occupying_exa_ids: old(self)@.occupying_exa_ids.remove(k),
                    ..old(self)@
                }),
            host_wf(final(self)@),
    {
        let n = self.occupying_exa_ids.len();
        if n == 0 {
            return None;
        }
        let k = crate::rng::random_below(n);
        let ghost old_ids = self@.occupying_exa_ids;
        let s = self.occupying_exa_ids.remove(k);
        proof {
            assert(self@.occupying_exa_ids =~= old_ids.remove(k as int));
            assert(final(self)@ =~= (HostView {
                occupying_exa_ids: old(self)@.occupying_exa_ids.remove(k as int),
                ..old(self)@
            }));
        }
        Some(s)
    }

    /// Strikes one pre-placed agent, chosen by a random draw, and hands
    /// back its id; none placed yields nothing.
    pub fn remove_random_system_exa(&mut self) -> (r: Option<String>)
        requires
            host_wf(old(self)@),
        ensures
            old(self)@.system_exa_ids.len() == 0 ==> r is None && *final(self) == *old(self),
            old(self)@.system_exa_ids.len() > 0 ==> exists|k: int|
                #![trigger old(self)@.system_exa_ids.remove(k)]
                0 <= k < old(self)@.system_exa_ids.len() && (r matches Some(s) && s@ == old(
                    self,
                )@.system_exa_ids[k]) && final(self)@ == (HostView {
                    system_exa_ids: old(self)@.system_exa_ids.remove(k),
                    ..old(self)@
                }),
            host_wf(final(self)@),
    {
        let n = self.system_exas.len();
        if n == 0 {
            return None;
        }
        let k = crate::rng::random_below(n);
        let ghost old_ids = self@.system_exa_ids;
        let exa = self.system_exas.remove(k);
        proof {
            assert(self@.system_exa_ids =~= old_ids.remove(k as int));
            assert(final(self)@ =~= (HostView {
                system_exa_ids: old(self)@.system_exa_ids.remove(k as int),
                ..old(self)@
            }));
        }
        Some(exa.into_id())
    }

    /// A copy of the hardware register with the given id, if the host
    /// owns it.
    pub fn hardware_register(&self, register_id: &str) -> (r: Option<HardwareRegister>)
        ensures
            match find_hw(self@.hardware_registers, register_id@) {
                Some(k) => r matches Some(h) && h@ == self@.hardware_registers[k],
                None => r is None,
            },
    {
        match self.find_hw_index(register_id) {
            Some(k) => Some(self.hardware_registers[k].clone()),
            None => None,
        }
    }

    /// The position of a hardware register id, if the host owns it.
    pub(crate) fn find_hw_index(&self, register_id: &str) -> (r: Option<usize>)
        ensures
            match r {
                Some(k) => find_hw(self@.hardware_registers, register_id@) == Some(k as int)
                    && k < self@.hardware_registers.len(),
                None => find_hw(self@.hardware_registers, register_id@) is None,
            },
    {
        let n = self.hardware_registers.len();
        let mut k: usize = 0;
        proof {
            assert(self@.hardware_registers.skip(0) =~= self@.hardware_registers);
        }
        while k < n
            invariant
                k <= n,
                n == self.hardware_registers@.len(),
                ({
                    let hs = self@.hardware_registers;
                    match find_hw(hs.skip(k as int), register_id@) {
                        Some(j) => find_hw(hs, register_id@) == Some(j + k),
                        None => find_hw(hs, register_id@) is None,
                    }
                }),
            decreases n - k,
        {
            proof {
                assert(self@.hardware_registers.skip(k as int).drop_first() =~=
                    self@.hardware_registers.skip(k + 1));
            }
            if crate::text::str_eq(self.hardware_registers[k].id_text(), register_id) {
                return Some(k);
            }
            k += 1;
        }
        None
    }

    /// Moves every pending file into the held set; dropped files become
    /// grabbable at this point, at the end of a cycle.
    pub fn uptake_pending_files(&mut self)
        requires
            host_wf(old(self)@),
        ensures
            final(self)@ == (HostView {
                files: old(self)@.files + old(self)@.pending_files,
                pending_files: Seq::<FileView>::empty(),
                ..old(self)@
            }),
            host_wf(final(self)@),
    {
        let ghost old_files = self@.files;
        let ghost old_pending = self@.pending_files;
        let n = self.pending_files.len();
        let mut i: usize = 0;
        proof {
            assert(old_pending.subrange(0, 0) =~= Seq::<FileView>::empty());
            assert(old_files + old_pending.subrange(0, 0) =~= old_files);
            assert(old_pending.skip(0) =~= old_pending);
        }
        while i < n
            invariant
                i <= n,
                n == old_pending.len(),
                old_files == old(self)@.files,
                old_pending == old(self)@.pending_files,
                self.pending_files@.len() == n - i,
                self.id@ == old(self).id@,
                self.occupancy_limit == old(self).occupancy_limit,
                self.local_m_register@ == old(self).local_m_register@,
                self.links@ == old(self).links@,
                self.hardware_registers@ == old(self).hardware_registers@,
                self.system_exas@ == old(self).system_exas@,
                self.occupying_exa_ids@ == old(self).occupying_exa_ids@,
                self@.files == old_files + old_pending.subrange(0, i as int),
                self@.pending_files == old_pending.skip(i as int),
            decreases n - i,
        {
            let ghost before_files_view = self@.files;
            let ghost before_pending = self@.pending_files;
            let f = self.pending_files.remove(0);
            proof {
                assert(f@ == before_pending[0]);
                assert(f@ == old_pending[i as int]);
                assert(self@.pending_files =~= before_pending.drop_first());
                assert(before_pending.drop_first() =~= old_pending.skip(i + 1));
            }
            self.files.push(f);
            proof {
                assert(self@.files =~= before_files_view.push(old_pending[i as int]));
                assert(old_pending.subrange(0, i + 1) =~= old_pending.subrange(
                    0,
                    i as int,
                ).push(old_pending[i as int]));
                assert(self@.files =~= old_files + old_pending.subrange(0, i + 1));
            }
            i += 1;
        }
        proof {
            assert(old_pending.subrange(0, n as int) =~= old_pending);
            assert(old_pending.skip(n as int) =~= Seq::<FileView>::empty());
            assert(final(self)@ =~= (HostView {
                files: old(self)@.files + old(self)@.pending_files,
                pending_files: Seq::<FileView>::empty(),
                ..old(self)@
            }));
        }
    }

    /// Whether a file with the given id is here, pending included.
    pub fn has_file(&self, file_id: &str) -> (r: bool)
        ensures
            r == (find_file(self@.files, file_id@) is Some || find_file(
                self@.pending_files,
                file_id@,
            ) is Some),
    {
        let n = self.files.len();
        let mut k: usize = 0;
        proof {
            assert(self@.files.skip(0) =~= self@.files);
        }
        while k < n
            invariant
                k <= n,
                n == self.files@.len(),
                ({
                    let files = self@.files;
                    match find_file(files.skip(k as int), file_id@) {
                        Some(j) => find_file(files, file_id@) == Some(j + k),
                        None => find_file(files, file_id@) is None,
                    }
                }),
            decreases n - k,
        {
            proof {
                assert(self@.files.skip(k as int).drop_first() =~= self@.files.skip(k + 1));
            }
            if crate::text::str_eq(self.files[k].id_text(), file_id) {
                return true;
            }
            k += 1;
        }
        self.find_pending(file_id).is_some()
    }


    /// The host's id as text.
    pub fn id_text(&self) -> (s: &str)
        ensures
            s@ == self@.id,
    {
        self.id.as_str()
    }

    /// A clone of the pending local message, if any.
    pub fn local_m_read(&self) -> (r: Option<Value>)
        ensures
            crate::value::opt_view(r) == self@.local_m.value,
    {
        match self.local_m_register.read() {
            Ok(v) => v,
            Err(_) => None,
        }
    }

    /// Consumes the pending local message.
    pub fn local_m_take(&mut self) -> (r: Option<Value>)
        ensures
            crate::value::opt_view(r) == old(self)@.local_m.value,
            final(self)@ == (HostView {
                local_m: crate::register::RegisterView {
                    value: None,
                    ..old(self)@.local_m
                },
                ..old(self)@
            }),
    {
        match self.local_m_register.read_mut() {
            Ok(v) => v,
            Err(_) => None,
        }
    }

    /// Deposits a local message; a refused value changes nothing.
    pub fn local_m_write(&mut self, value: &Value) -> (r: Result<(), AccessError>)
        ensures
            r is Ok <==> crate::register::writable(value@),
            crate::register::writable(value@) ==> final(self)@ == (HostView {
                local_m: crate::register::RegisterView {
                    value: Some(value@),
                    ..old(self)@.local_m
                },
                ..old(self)@
            }),
            !crate::register::writable(value@) ==> final(self)@ == old(self)@,
    {
        self.local_m_register.write(value)
    }

    /// Reads the front of one hardware register, by position.
    pub(crate) fn hw_read_at(&self, k: usize) -> (r: Result<Option<Value>, AccessError>)
        requires
            (k as int) < self@.hardware_registers.len(),
        ensures
            ({
                let hw = self@.hardware_registers[k as int];
                match hw.mode {
                    crate::register::AccessMode::WriteOnly => r is Err,
                    crate::register::AccessMode::ReadOnly => r matches Ok(v)
                        && crate::value::opt_view(v) == (if hw.values.len() > 0 {
                        Some(hw.values[0])
                    } else {
                        None
                    }),
                }
            }),
    {
        self.hardware_registers[k].read()
    }

    /// Pops the front of one read-only hardware register, by position; a
    /// write-only one is left alone.
    pub(crate) fn hw_pop_at(&mut self, k: usize)
        requires
            (k as int) < old(self)@.hardware_registers.len(),
        ensures
            ({
                let hw = old(self)@.hardware_registers[k as int];
                if hw.mode == crate::register::AccessMode::ReadOnly && hw.values.len() > 0 {
                    final(self)@ == (HostView {
                        hardware_registers: old(self)@.hardware_registers.update(
                            k as int,
                            (HardwareRegisterView { values: hw.values.skip(1), ..hw }),
                        ),
                        ..old(self)@
                    })
                } else {
                    final(self)@ == old(self)@
                }
            }),
    {
        let ghost old_hws = self@.hardware_registers;
        let mut reg = self.hardware_registers.remove(k);
        let ghost regv0 = reg@;
        let popped = reg.read_mut();
        let ghost regv = reg@;
        self.hardware_registers.insert(k, reg);
        proof {
            assert(self@.hardware_registers =~= old_hws.update(k as int, regv));
            if !(regv0.mode == crate::register::AccessMode::ReadOnly && regv0.values.len()
                > 0) {
                assert(old_hws.update(k as int, regv) =~= old_hws);
                assert(final(self)@ =~= old(self)@);
            }
        }
    }

    /// Writes one hardware register, by position: a write-only one
    /// enqueues, a read-only one drops the value; a refused value
    /// changes nothing.
    pub(crate) fn hw_write_at(&mut self, k: usize, value: &Value) -> (r: Result<
        (),
        AccessError,
    >)
        requires
            (k as int) < old(self)@.hardware_registers.len(),
        ensures
            r is Ok <==> crate::register::writable(value@),
            ({
                let hw = old(self)@.hardware_registers[k as int];
                if crate::register::writable(value@) && hw.mode
                    == crate::register::AccessMode::WriteOnly {
                    final(self)@ == (HostView {
                        hardware_registers: old(self)@.hardware_registers.update(
                            k as int,
                            (HardwareRegisterView { values: hw.values.push(value@), ..hw }),
                        ),
                        ..old(self)@
                    })
                } else {
                    final(self)@ == old(self)@
                }
            }),
    {
        let ghost old_hws = self@.hardware_registers;
        let mut reg = self.hardware_registers.remove(k);
        let ghost regv0 = reg@;
        let r = reg.write(value);
        let ghost regv = reg@;
        self.hardware_registers.insert(k, reg);
        proof {
            assert(self@.hardware_registers =~= old_hws.update(k as int, regv));
            if !(crate::register::writable(value@) && regv0.mode
                == crate::register::AccessMode::WriteOnly) {
                assert(old_hws.update(k as int, regv) =~= old_hws);
                assert(final(self)@ =~= old(self)@);
            }
        }
        r
    }

    /// Takes one held file, by position.
    pub(crate) fn remove_file_at(&mut self, k: usize) -> (f: File)
        requires
            (k as int) < old(self)@.files.len(),
        ensures
            f@ == old(self)@.files[k as int],
            final(self)@ == (HostView {
                files: old(self)@.files.remove(k as int),
                ..old(self)@
            }),
    {
        let ghost old_files = self@.files;
        let f = self.files.remove(k);
        proof {
            assert(self@.files =~= old_files.remove(k as int));
        }
        f
    }

    /// Strikes one resident agent id, by position, handing it back.
    pub(crate) fn remove_occupying_at(&mut self, k: usize) -> (s: String)
        requires
            (k as int) < old(self)@.occupying_exa_ids.len(),
        ensures
            s@ == old(self)@.occupying_exa_ids[k as int],
            final(self)@ == (HostView {
                occupying_exa_ids: old(self)@.occupying_exa_ids.remove(k as int),
                ..old(self)@
            }),
    {
        let ghost old_ids = self@.occupying_exa_ids;
        let s = self.occupying_exa_ids.remove(k);
        proof {
            assert(self@.occupying_exa_ids =~= old_ids.remove(k as int));
        }
        s
    }

    /// Strikes one pre-placed agent, by position, handing back its id.
    pub(crate) fn remove_system_at(&mut self, k: usize) -> (s: String)
        requires
            (k as int) < old(self)@.system_exa_ids.len(),
        ensures
            s@ == old(self)@.system_exa_ids[k as int],
            final(self)@ == (HostView {
                system_exa_ids: old(self)@.system_exa_ids.remove(k as int),
                ..old(self)@
            }),
    {
        let ghost old_ids = self@.system_exa_ids;
        let e = self.system_exas.remove(k);
        proof {
            assert(self@.system_exa_ids =~= old_ids.remove(k as int));
        }
        e.into_id()
    }

    /// How many resident agent ids the host registers.
    pub fn occupying_count(&self) -> (n: usize)
        ensures
            n as int == self@.occupying_exa_ids.len(),
    {
        self.occupying_exa_ids.len()
    }

    /// One resident agent id, by position.
    pub fn occupying_id_at(&self, k: usize) -> (s: &str)
        requires
            (k as int) < self@.occupying_exa_ids.len(),
        ensures
            s@ == self@.occupying_exa_ids[k as int],
    {
        self.occupying_exa_ids[k].as_str()
    }

    /// How many pre-placed agents the host holds.
    pub fn system_count(&self) -> (n: usize)
        ensures
            n as int == self@.system_exa_ids.len(),
    {
        self.system_exas.len()
    }

    /// Whether a resident agent id is registered here.
    pub fn has_occupying_exa_id(&self, exa_id: &str) -> (r: bool)
        ensures
            r == (find_id(self@.occupying_exa_ids, exa_id@) is Some),
    {
        self.find_occupying(exa_id).is_some()
    }

    /// Whether a gate with the given id is registered here.
    pub fn has_link(&self, gate_id: &str) -> (r: bool)
        ensures
            r == self@.links.contains_key(gate_id@),
    {
        match Self::find_gate(&self.links, gate_id) {
            Some(_) => true,
            None => false,
        }
    }

    /// The index of the link behind a gate, or which gate was unknown.
    pub fn link(&self, gate_id: &str) -> (r: Result<usize, HostError>)
        ensures
            self@.links.contains_key(gate_id@) ==> (r matches Ok(ix) && ix as int
                == self@.links[gate_id@]),
            !self@.links.contains_key(gate_id@) ==> (r matches Err(e) && (e matches
                HostError::LinkDoesNotExist(g) && g@ == gate_id@)),
    {
        match Self::find_gate(&self.links, gate_id) {
            Some(ix) => Ok(ix),
            None => Err(HostError::LinkDoesNotExist(gate_id.to_owned())),
        }
    }

    /// Scans the registered gates for an id, earliest entry foremost.
    fn find_gate(links: &Vec<(String, usize)>, gate_id: &str) -> (r: Option<usize>)
        ensures
            match r {
                Some(ix) => crate::program::find_mark(links@, gate_id@) == Some(ix as int),
                None => crate::program::find_mark(links@, gate_id@) is None,
            },
    {
        let n = links.len();
        let mut k: usize = 0;
        proof {
            assert(links@.skip(0) =~= links@);
        }
        while k < n
            invariant
                k <= n,
                n == links@.len(),
                crate::program::find_mark(links@, gate_id@) == crate::program::find_mark(
                    links@.skip(k as int),
                    gate_id@,
                ),
            decreases n - k,
        {
            proof {
                assert(links@.skip(k as int).drop_first() =~= links@.skip(k + 1));
            }
            if crate::text::str_eq(links[k].0.as_str(), gate_id) {
                return Some(links[k].1);
            }
            k += 1;
        }
        None
    }
}

/// A found hardware register id sits in bounds and matches.
pub proof fn lemma_find_hw_some(s: Seq<HardwareRegisterView>, id: Seq<char>)
    requires
        find_hw(s, id) is Some,
    ensures
        0 <= find_hw(s, id)->0 < s.len(),
        s[find_hw(s, id)->0].id == id,
    decreases s.len(),
{
    if s.len() > 0 && s[0].id != id {
        lemma_find_hw_some(s.drop_first(), id);
    }
}

/// A found file id sits in bounds and matches.
pub proof fn lemma_find_file_some(s: Seq<FileView>, id: Seq<char>)
    requires
        find_file(s, id) is Some,
    ensures
        0 <= find_file(s, id)->0 < s.len(),
        s[find_file(s, id)->0].id == id,
    decreases s.len(),
{
    if s.len() > 0 && s[0].id != id {
        lemma_find_file_some(s.drop_first(), id);
    }
}

/// A found id sits in bounds and matches.
pub proof fn lemma_find_id_some(s: Seq<Seq<char>>, id: Seq<char>)
    requires
        find_id(s, id) is Some,
    ensures
        0 <= find_id(s, id)->0 < s.len(),
        s[find_id(s, id)->0] == id,
    decreases s.len(),
{
    if s.len() > 0 && s[0] != id {
        lemma_find_id_some(s.drop_first(), id);
    }
}

/// An absent id differs from every entry.
proof fn lemma_find_none_all_differ(s: Seq<FileView>, id: Seq<char>)
    requires
        find_file(s, id) is None,
    ensures
        forall|i: int| 0 <= i < s.len() ==> (#[trigger] s[i]).id != id,
    decreases s.len(),
{
    if s.len() > 0 {
        lemma_find_none_all_differ(s.drop_first(), id);
        assert(forall|i: int|
            1 <= i < s.len() ==> #[trigger] s[i] == s.drop_first()[i - 1]);
    }
}

/// An absent hardware register id differs from every entry.
proof fn lemma_find_hw_none_all_differ(s: Seq<HardwareRegisterView>, id: Seq<char>)
    requires
        find_hw(s, id) is None,
    ensures
        forall|i: int| 0 <= i < s.len() ==> (#[trigger] s[i]).id != id,
    decreases s.len(),
{
    if s.len() > 0 {
        lemma_find_hw_none_all_differ(s.drop_first(), id);
        assert(forall|i: int|
            1 <= i < s.len() ==> #[trigger] s[i] == s.drop_first()[i - 1]);
    }
}

/// An absent agent id differs from every entry.
pub proof fn lemma_find_id_none_all_differ(s: Seq<Seq<char>>, id: Seq<char>)
    requires
        find_id(s, id) is None,
    ensures
        forall|i: int| 0 <= i < s.len() ==> #[trigger] s[i] != id,
    decreases s.len(),
{
    if s.len() > 0 {
        lemma_find_id_none_all_differ(s.drop_first(), id);
        assert(forall|i: int|
            1 <= i < s.len() ==> #[trigger] s[i] == s.drop_first()[i - 1]);
    }
}

} // verus!
