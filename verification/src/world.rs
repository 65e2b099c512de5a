//! The world: one arena owning every host and link, the global message
//! cell, and the file id source. Agents name hosts and links by index.

use vstd::prelude::*;

use crate::file::id_generator::{id_generator_wf, IdGenerator, IdGeneratorView};
use crate::file::File;
use crate::host::link::{Link, LinkView};
use crate::host::{host_used, host_wf, Host, HostView};
use crate::register::{BasicRegister, HardwareRegister, RegisterView};
use crate::value::Value;

verus! {

/// The model of the world.
#[verifier::ext_equal]
pub struct WorldView {
    pub hosts: Seq<HostView>,
    pub links: Seq<LinkView>,
    pub global_m: RegisterView,
    pub generator: IdGeneratorView,
}

/// A well-formed world: every host is well formed, every gate points at
/// a link, every link joins two hosts, and the id source is in order.
pub open spec fn world_wf(w: WorldView) -> bool {
    &&& (forall|i: int| 0 <= i < w.hosts.len() ==> host_wf(#[trigger] w.hosts[i]))
    &&& (forall|i: int, g: Seq<char>|
        0 <= i < w.hosts.len() && (#[trigger] w.hosts[i]).links.contains_key(g) ==> 0
            <= #[trigger] w.hosts[i].links[g] < w.links.len())
    &&& (forall|j: int|
        0 <= j < w.links.len() ==> 0 <= (#[trigger] w.links[j]).lhs_host < w.hosts.len() && 0
            <= w.links[j].rhs_host < w.hosts.len())
    &&& id_generator_wf(w.generator)
}

/// The arena the whole machine lives in.
#[derive(Debug)]
pub struct World {
    pub(crate) hosts: Vec<Host>,
    pub(crate) links: Vec<Link>,
    pub(crate) global_m_register: BasicRegister,
    pub(crate) id_generator: IdGenerator,
}

impl View for World {
    type V = WorldView;

    closed spec fn view(&self) -> WorldView {
        WorldView {
            hosts: self.hosts@.map_values(|h: Host| h@),
            links: self.links@.map_values(|l: Link| l@),
            global_m: self.global_m_register@,
            generator: self.id_generator@,
        }
    }
}

impl World {
    /// An empty world: no hosts, no links, an empty global message
    /// cell, and a fresh id source.
    pub fn new() -> (w: Self)
        ensures
            w@.hosts == Seq::<HostView>::empty(),
            w@.links == Seq::<LinkView>::empty(),
            w@.global_m.id == "M"@,
            w@.global_m.value is None,
            w@.generator.next == crate::file::id_generator::first_id(),
            world_wf(w@),
    {
        let w = World {
            hosts: Vec::new(),
            links: Vec::new(),
            global_m_register: BasicRegister::new("M"),
            id_generator: IdGenerator::default(),
        };
        proof {
            assert(w@.hosts =~= Seq::<HostView>::empty());
            assert(w@.links =~= Seq::<LinkView>::empty());
        }
        w
    }

    /// Adopts a host that knows no gates yet; its index comes back.
    pub fn add_host(&mut self, host: Host) -> (ix: usize)
        requires
            host_wf(host@),
            host@.links == Map::<Seq<char>, int>::empty(),
        ensures
            ix as int == old(self)@.hosts.len(),
            final(self)@ == (WorldView { hosts: old(self)@.hosts.push(host@), ..old(self)@ }),
            world_wf(old(self)@) ==> world_wf(final(self)@),
    {
        let ix = self.hosts.len();
        let ghost hv = host@;
        let ghost old_hosts = self@.hosts;
        self.hosts.push(host);
        proof {
            assert(self@.hosts =~= old_hosts.push(hv));
            assert(final(self)@ =~= (WorldView {
                hosts: old(self)@.hosts.push(hv),
                ..old(self)@
            }));
        }
        ix
    }

    /// Adopts a link between two existing hosts; its index comes back.
    pub fn add_link(&mut self, link: Link) -> (ix: usize)
        requires
            0 <= link@.lhs_host < old(self)@.hosts.len(),
            0 <= link@.rhs_host < old(self)@.hosts.len(),
        ensures
            ix as int == old(self)@.links.len(),
            final(self)@ == (WorldView { links: old(self)@.links.push(link@), ..old(self)@ }),
            world_wf(old(self)@) ==> world_wf(final(self)@),
    {
        let ix = self.links.len();
        let ghost lv = link@;
        let ghost old_links = self@.links;
        self.links.push(link);
        proof {
            assert(self@.links =~= old_links.push(lv));
            assert(final(self)@ =~= (WorldView {
                links: old(self)@.links.push(lv),
                ..old(self)@
            }));
        }
        ix
    }

    /// Registers a gate on a host, pointing at a link.
    pub fn connect(&mut self, host: usize, gate_id: &str, link: usize)
        requires
            (host as int) < old(self)@.hosts.len(),
            (link as int) < old(self)@.links.len(),
        ensures
            final(self)@ == (WorldView {
                hosts: old(self)@.hosts.update(
                    host as int,
                    (HostView {
                        links: old(self)@.hosts[host as int].links.insert(
                            gate_id@,
                            link as int,
                        ),
                        ..old(self)@.hosts[host as int]
                    }),
                ),
                ..old(self)@
            }),
            world_wf(old(self)@) ==> world_wf(final(self)@),
    {
        let ghost old_hosts = self@.hosts;
        let mut h = self.hosts.remove(host);
        h.insert_link(gate_id, link);
        self.hosts.insert(host, h);
        proof {
            assert(self@.hosts =~= old_hosts.update(host as int, self@.hosts[host as int]));
            assert(final(self)@ =~= (WorldView {
                hosts: old(self)@.hosts.update(
                    host as int,
                    (HostView {
                        links: old(self)@.hosts[host as int].links.insert(
                            gate_id@,
                            link as int,
                        ),
                        ..old(self)@.hosts[host as int]
                    }),
                ),
                ..old(self)@
            }));
        }
    }

    /// A view of one host.
    pub fn host(&self, ix: usize) -> (h: &Host)
        requires
            (ix as int) < self@.hosts.len(),
        ensures
            h@ == self@.hosts[ix as int],
    {
        &self.hosts[ix]
    }

    /// A view of one link.
    pub fn link(&self, ix: usize) -> (l: &Link)
        requires
            (ix as int) < self@.links.len(),
        ensures
            l@ == self@.links[ix as int],
    {
        &self.links[ix]
    }

    /// How many hosts the world has.
    pub fn host_count(&self) -> (n: usize)
        ensures
            n as int == self@.hosts.len(),
    {
        self.hosts.len()
    }

    /// Stores a file on a host; there must be room and the id must be
    /// fresh there.
    pub fn insert_file(&mut self, host: usize, file: File)
        requires
            (host as int) < old(self)@.hosts.len(),
            host_wf(old(self)@.hosts[host as int]),
            host_used(old(self)@.hosts[host as int]) < old(self)@.hosts[host as int].occupancy_limit,
            crate::host::find_file(old(self)@.hosts[host as int].files, file@.id) is None,
            crate::host::find_file(
                old(self)@.hosts[host as int].pending_files,
                file@.id,
            ) is None,
            crate::file::file_wf(file@),
        ensures
            final(self)@ == (WorldView {
                hosts: old(self)@.hosts.update(
                    host as int,
                    (HostView {
                        files: old(self)@.hosts[host as int].files.push(file@),
                        ..old(self)@.hosts[host as int]
                    }),
                ),
                ..old(self)@
            }),
            world_wf(old(self)@) ==> world_wf(final(self)@),
    {
        let ghost old_hosts = self@.hosts;
        let mut h = self.hosts.remove(host);
        h.insert_file(file);
        self.hosts.insert(host, h);
        proof {
            assert(self@.hosts =~= old_hosts.update(host as int, self@.hosts[host as int]));
            assert(final(self)@ =~= (WorldView {
                hosts: old(self)@.hosts.update(
                    host as int,
                    (HostView {
                        files: old(self)@.hosts[host as int].files.push(file@),
                        ..old(self)@.hosts[host as int]
                    }),
                ),
                ..old(self)@
            }));
        }
    }

    /// Stores a hardware register on a host; there must be room and the
    /// register id must be fresh there.
    pub fn insert_hardware_register(&mut self, host: usize, register: HardwareRegister)
        requires
            (host as int) < old(self)@.hosts.len(),
            host_wf(old(self)@.hosts[host as int]),
            host_used(old(self)@.hosts[host as int]) < old(self)@.hosts[host as int].occupancy_limit,
            crate::host::find_hw(
                old(self)@.hosts[host as int].hardware_registers,
                register@.id,
            ) is None,
        ensures
            final(self)@ == (WorldView {
                hosts: old(self)@.hosts.update(
                    host as int,
                    (HostView {
                        hardware_registers: old(self)@.hosts[host as int].hardware_registers.push(
                            register@,
                        ),
                        ..old(self)@.hosts[host as int]
                    }),
                ),
                ..old(self)@
            }),
            world_wf(old(self)@) ==> world_wf(final(self)@),
    {
        let ghost old_hosts = self@.hosts;
        let mut h = self.hosts.remove(host);
        h.insert_hardware_register(register);
        self.hosts.insert(host, h);
        proof {
            assert(self@.hosts =~= old_hosts.update(host as int, self@.hosts[host as int]));
            assert(final(self)@ =~= (WorldView {
                hosts: old(self)@.hosts.update(
                    host as int,
                    (HostView {
                        hardware_registers: old(self)@.hosts[host as int].hardware_registers.push(
                            register@,
                        ),
                        ..old(self)@.hosts[host as int]
                    }),
                ),
                ..old(self)@
            }));
        }
    }

    /// Registers a resident agent id on a host; there must be room.
    pub fn insert_exa_id(&mut self, host: usize, exa_id: &str)
        requires
            (host as int) < old(self)@.hosts.len(),
            host_wf(old(self)@.hosts[host as int]),
            host_used(old(self)@.hosts[host as int]) < old(self)@.hosts[host as int].occupancy_limit,
        ensures
            crate::host::find_id(
                old(self)@.hosts[host as int].occupying_exa_ids,
                exa_id@,
            ) is None ==> final(self)@ == (WorldView {
                hosts: old(self)@.hosts.update(
                    host as int,
                    (HostView {
                        occupying_exa_ids: old(
                            self,
                        )@.hosts[host as int].occupying_exa_ids.push(exa_id@),
                        ..old(self)@.hosts[host as int]
                    }),
                ),
                ..old(self)@
            }),
            crate::host::find_id(
                old(self)@.hosts[host as int].occupying_exa_ids,
                exa_id@,
            ) is Some ==> final(self)@ == old(self)@,
            world_wf(old(self)@) ==> world_wf(final(self)@),
    {
        let ghost old_hosts = self@.hosts;
        let mut h = self.hosts.remove(host);
        h.insert_exa_id(exa_id);
        self.hosts.insert(host, h);
        proof {
            assert(self@.hosts =~= old_hosts.update(host as int, self@.hosts[host as int]));
            if crate::host::find_id(
                old(self)@.hosts[host as int].occupying_exa_ids,
                exa_id@,
            ) is Some {
                assert(old_hosts.update(host as int, old_hosts[host as int]) =~= old_hosts);
                assert(final(self)@ =~= old(self)@);
            } else {
                assert(final(self)@ =~= (WorldView {
                    hosts: old(self)@.hosts.update(
                        host as int,
                        (HostView {
                            occupying_exa_ids: old(
                                self,
                            )@.hosts[host as int].occupying_exa_ids.push(exa_id@),
                            ..old(self)@.hosts[host as int]
                        }),
                    ),
                    ..old(self)@
                }));
            }
        }
    }

    /// Strikes a resident agent id from a host, handing it back if it
    /// was there; the driver uses this when an agent dies.
    pub fn remove_exa_id(&mut self, host: usize, exa_id: &str) -> (r: Option<String>)
        requires
            (host as int) < old(self)@.hosts.len(),
            host_wf(old(self)@.hosts[host as int]),
        ensures
            ({
                let ids = old(self)@.hosts[host as int].occupying_exa_ids;
                match crate::host::find_id(ids, exa_id@) {
                    Some(k) => (r matches Some(s) && s@ == exa_id@) && final(self)@ == (
                    WorldView {
                        hosts: old(self)@.hosts.update(
                            host as int,
                            (HostView {
                                occupying_exa_ids: ids.remove(k),
                                ..old(self)@.hosts[host as int]
                            }),
                        ),
                        ..old(self)@
                    }),
                    None => r is None && final(self)@ == old(self)@,
                }
            }),
            world_wf(old(self)@) ==> world_wf(final(self)@),
    {
        let ghost old_hosts = self@.hosts;
        let mut h = self.hosts.remove(host);
        let r = h.remove_occupying_exa_id(exa_id);
        self.hosts.insert(host, h);
        proof {
            assert(self@.hosts =~= old_hosts.update(host as int, self@.hosts[host as int]));
            let ids = old(self)@.hosts[host as int].occupying_exa_ids;
            if crate::host::find_id(ids, exa_id@) is Some {
                crate::host::lemma_find_id_some(ids, exa_id@);
            }
            if crate::host::find_id(ids, exa_id@) is None {
                assert(old_hosts.update(host as int, old_hosts[host as int]) =~= old_hosts);
                assert(final(self)@ =~= old(self)@);
            } else {
                assert(final(self)@ =~= (WorldView {
                    hosts: old(self)@.hosts.update(
                        host as int,
                        (HostView {
                            occupying_exa_ids: ids.remove(
                                crate::host::find_id(ids, exa_id@)->0,
                            ),
                            ..old(self)@.hosts[host as int]
                        }),
                    ),
                    ..old(self)@
                }));
            }
        }
        r
    }


    /// Lifts one host out of the arena; the engine puts it back with
    /// [`World::put_host`].
    pub(crate) fn take_host(&mut self, i: usize) -> (h: Host)
        requires
            (i as int) < old(self)@.hosts.len(),
        ensures
            h@ == old(self)@.hosts[i as int],
            final(self)@ == (WorldView {
                hosts: old(self)@.hosts.remove(i as int),
                ..old(self)@
            }),
    {
        let ghost old_hosts = self@.hosts;
        let h = self.hosts.remove(i);
        proof {
            assert(self@.hosts =~= old_hosts.remove(i as int));
        }
        h
    }

    /// Puts a host back into the arena at the given position.
    pub(crate) fn put_host(&mut self, i: usize, h: Host)
        requires
            (i as int) <= old(self)@.hosts.len(),
        ensures
            final(self)@ == (WorldView {
                hosts: old(self)@.hosts.insert(i as int, h@),
                ..old(self)@
            }),
    {
        let ghost hv = h@;
        let ghost old_hosts = self@.hosts;
        self.hosts.insert(i, h);
        proof {
            assert(self@.hosts =~= old_hosts.insert(i as int, hv));
        }
    }

    /// A clone of the pending global message, if any.
    pub fn global_m_read(&self) -> (r: Option<Value>)
        ensures
            crate::value::opt_view(r) == self@.global_m.value,
    {
        match self.global_m_register.read() {
            Ok(v) => v,
            Err(_) => None,
        }
    }

    /// Consumes the pending global message.
    pub fn global_m_take(&mut self) -> (r: Option<Value>)
        ensures
            crate::value::opt_view(r) == old(self)@.global_m.value,
            final(self)@ == (WorldView {
                global_m: RegisterView { value: None, ..old(self)@.global_m },
                ..old(self)@
            }),
    {
        match self.global_m_register.read_mut() {
            Ok(v) => v,
            Err(_) => None,
        }
    }

    /// Deposits a global message; a refused value changes nothing.
    pub fn global_m_write(&mut self, value: &Value) -> (r: Result<
        (),
        crate::register::AccessError,
    >)
        ensures
            r is Ok <==> crate::register::writable(value@),
            crate::register::writable(value@) ==> final(self)@ == (WorldView {
                global_m: RegisterView { value: Some(value@), ..old(self)@.global_m },
                ..old(self)@
            }),
            !crate::register::writable(value@) ==> final(self)@ == old(self)@,
    {
        self.global_m_register.write(value)
    }

    /// Marks a link as in transit for the rest of the cycle.
    pub(crate) fn occupy_link(&mut self, ix: usize)
        requires
            (ix as int) < old(self)@.links.len(),
        ensures
            final(self)@ == (WorldView {
                links: old(self)@.links.update(
                    ix as int,
                    (LinkView { occupied: true, ..old(self)@.links[ix as int] }),
                ),
                ..old(self)@
            }),
    {
        let ghost old_links = self@.links;
        let mut l = self.links.remove(ix);
        l.occupy();
        self.links.insert(ix, l);
        proof {
            assert(self@.links =~= old_links.update(ix as int, self@.links[ix as int]));
        }
    }

    /// Draws the next fresh file id from the world's id source.
    pub(crate) fn mint_file_id(&mut self) -> (r: String)
        requires
            id_generator_wf(old(self)@.generator),
            old(self)@.generator.next <= crate::file::id_generator::last_id(),
        ensures
            r@ == crate::text::dec_digits(old(self)@.generator.next as nat),
            final(self)@.hosts == old(self)@.hosts,
            final(self)@.links == old(self)@.links,
            final(self)@.global_m == old(self)@.global_m,
            final(self)@.generator.avoid == old(self)@.generator.avoid,
            final(self)@.generator.next > old(self)@.generator.next,
            id_generator_wf(final(self)@.generator),
    {
        match self.id_generator.next() {
            Some(id) => id,
            None => vstd::pervasive::unreached(),
        }
    }

    /// Ends the cycle: every link is released and every host's pending
    /// files become grabbable.
    pub fn end_cycle(&mut self)
        requires
            forall|i: int|
                0 <= i < old(self)@.hosts.len() ==> host_wf(#[trigger] old(self)@.hosts[i]),
        ensures
            final(self)@.hosts.len() == old(self)@.hosts.len(),
            final(self)@.links.len() == old(self)@.links.len(),
            forall|i: int|
                0 <= i < old(self)@.hosts.len() ==> #[trigger] final(self)@.hosts[i] == (HostView {
                    files: old(self)@.hosts[i].files + old(self)@.hosts[i].pending_files,
                    pending_files: Seq::<crate::file::FileView>::empty(),
                    ..old(self)@.hosts[i]
                }),
            forall|j: int|
                0 <= j < old(self)@.links.len() ==> #[trigger] final(self)@.links[j] == (
                LinkView { occupied: false, ..old(self)@.links[j] }),
            final(self)@.global_m == old(self)@.global_m,
            final(self)@.generator == old(self)@.generator,
            world_wf(old(self)@) ==> world_wf(final(self)@),
    {
        let hn = self.hosts.len();
        let mut i: usize = 0;
        while i < hn
            invariant
                i <= hn,
                hn == self.hosts@.len(),
                self.links@ == old(self).links@,
                self.global_m_register@ == old(self).global_m_register@,
                self.id_generator@ == old(self).id_generator@,
                self@.hosts.len() == old(self)@.hosts.len(),
                forall|k: int|
                    0 <= k < old(self)@.hosts.len() ==> host_wf(#[trigger] old(self)@.hosts[k]),
                forall|k: int|
                    0 <= k < i ==> #[trigger] self@.hosts[k] == (HostView {
                        files: old(self)@.hosts[k].files + old(self)@.hosts[k].pending_files,
                        pending_files: Seq::<crate::file::FileView>::empty(),
                        ..old(self)@.hosts[k]
                    }),
                forall|k: int|
                    i <= k < old(self)@.hosts.len() ==> #[trigger] self@.hosts[k] == old(
                        self,
                    )@.hosts[k],
            decreases hn - i,
        {
            let ghost before_hosts = self@.hosts;
            let mut h = self.hosts.remove(i);
            proof {
                assert(h@ == before_hosts[i as int]);
                assert(before_hosts[i as int] == old(self)@.hosts[i as int]);
                assert(host_wf(old(self)@.hosts[i as int]));
            }
            h.uptake_pending_files();
            self.hosts.insert(i, h);
            proof {
                assert(self@.hosts =~= before_hosts.update(i as int, h@));
                assert(self@.hosts[i as int] == (HostView {
                    files: old(self)@.hosts[i as int].files + old(
                        self,
                    )@.hosts[i as int].pending_files,
                    pending_files: Seq::<crate::file::FileView>::empty(),
                    ..old(self)@.hosts[i as int]
                }));
            }
            i += 1;
        }
        let ghost hosts_done = self@.hosts;
        let ln = self.links.len();
        let mut j: usize = 0;
        while j < ln
            invariant
                j <= ln,
                ln == self.links@.len(),
                self@.hosts == hosts_done,
                hosts_done.len() == old(self)@.hosts.len(),
                forall|k: int|
                    0 <= k < old(self)@.hosts.len() ==> #[trigger] hosts_done[k] == (HostView {
                        files: old(self)@.hosts[k].files + old(self)@.hosts[k].pending_files,
                        pending_files: Seq::<crate::file::FileView>::empty(),
                        ..old(self)@.hosts[k]
                    }),
                self.global_m_register@ == old(self).global_m_register@,
                self.id_generator@ == old(self).id_generator@,
                self@.links.len() == old(self)@.links.len(),
                forall|k: int|
                    0 <= k < j ==> #[trigger] self@.links[k] == (LinkView {
                        occupied: false,
                        ..old(self)@.links[k]
                    }),
                forall|k: int|
                    j <= k < old(self)@.links.len() ==> #[trigger] self@.links[k] == old(
                        self,
                    )@.links[k],
            decreases ln - j,
        {
            let ghost before_links = self@.links;
            let mut l = self.links.remove(j);
            proof {
                assert(l@ == before_links[j as int]);
                assert(before_links[j as int] == old(self)@.links[j as int]);
            }
            l.release();
            self.links.insert(j, l);
            proof {
                assert(self@.links =~= before_links.update(j as int, l@));
                assert(self@.links[j as int] == (LinkView {
                    occupied: false,
                    ..old(self)@.links[j as int]
                }));
            }
            j += 1;
        }
    }
}

} // verus!
