//! Creating and starting a box with several mounted directories.

use crate::bench::clock::Span;
use crate::bench::scenarios::common::{
    alpine, alpine_options, none, volume_views, BoxSpec, BoxSpecView, Home, Metrics, Volume,
};
use crate::bench::scenarios::plan::{warmed_if, Act, ActView, Plan};
use crate::names::NameMap;
use crate::number::double::Double;
use crate::render::{decimal, decimal_text};
use vstd::prelude::*;

verus! {

/// How many directories are mounted. The virtual machine takes no more.
pub const MOUNTS: usize = 2;

/// `throughput-volumes-multi-setup`.
pub struct VolumesMulti {
    pub home: Home,
    /// The directories of the host that are mounted.
    pub host_dirs: Vec<String>,
    /// Whether a first box was started and stopped, so that the image is there.
    pub prewarmed: bool,
}

/// The volumes: each directory under a numbered path in the box.
pub open spec fn numbered_volumes(dirs: Seq<String>) -> Seq<(Seq<char>, Seq<char>, bool)> {
    Seq::new(dirs.len(), |i: int| (dirs[i]@, "/mnt/host"@ + decimal(i as nat), false))
}

impl VolumesMulti {
    pub fn new() -> (r: VolumesMulti)
        ensures
            r.home.path is None,
            r.host_dirs@.len() == 0,
            !r.prewarmed,
    {
        VolumesMulti { home: Home::new(), host_dirs: Vec::new(), prewarmed: false }
    }

    pub fn name(&self) -> (r: &'static str)
        ensures
            r@ == "throughput-volumes-multi-setup"@,
    {
        "throughput-volumes-multi-setup"
    }

    /// How many directories are still to be made: all of them before the first iteration, none
    /// after it.
    pub fn missing(&self) -> (r: usize)
        ensures
            r == if self.host_dirs@.len() == 0 {
                2
            } else {
                0int
            },
    {
        if self.host_dirs.len() == 0 {
            MOUNTS
        } else {
            0
        }
    }

    /// Keeps a directory that was made.
    pub fn made(&mut self, path: String)
        ensures
            final(self).host_dirs@ == old(self).host_dirs@.push(path),
            final(self).home == old(self).home,
            final(self).prewarmed == old(self).prewarmed,
    {
        self.host_dirs.push(path);
    }

    /// Whether a first box, without volumes, is still to be started and stopped.
    pub fn needs_prewarm(&self) -> (r: bool)
        ensures
            r == !self.prewarmed,
    {
        !self.prewarmed
    }

    /// Notes that a first box was started and stopped.
    pub fn warmed(&mut self)
        ensures
            final(self).prewarmed,
            final(self).home == old(self).home,
            final(self).host_dirs == old(self).host_dirs,
    {
        self.prewarmed = true;
    }

    /// The box.
    pub fn options(&self) -> (r: BoxSpec)
        ensures
            r@ == (BoxSpecView { volumes: numbered_volumes(self.host_dirs@), ..alpine() }),
    {
        let mut volumes: Vec<Volume> = Vec::new();
        let mut i: usize = 0;
        while i < self.host_dirs.len()
            invariant
                i <= self.host_dirs@.len(),
                volume_views(volumes@) == numbered_volumes(self.host_dirs@).take(i as int),
            decreases self.host_dirs@.len() - i,
        {
            let ghost done = volume_views(volumes@);
            let mut path: String = "/mnt/host".to_owned();
            path.append(decimal_text(i as u64).as_str());
            let v = Volume {
                host_path: self.host_dirs[i].clone(),
                guest_path: path,
                read_only: false,
            };
            volumes.push(v);
            proof {
                let all = numbered_volumes(self.host_dirs@);
                let one = (v.host_path@, v.guest_path@, v.read_only);
                assert(volume_views(volumes@) =~= done.push(one));
                assert(all[i as int] == one);
                assert(all.take(i + 1) =~= all.take(i as int).push(one));
            }
            i = i + 1;
        }
        proof {
            let all = numbered_volumes(self.host_dirs@);
            assert(all.take(all.len() as int) =~= all);
        }
        let mut spec = alpine_options();
        spec.volumes = volumes;
        spec
    }

    /// The acts of an iteration. The first box, without volumes, is started once.
    pub fn plan(&self) -> (r: Plan)
        ensures
            r@ == warmed_if(!self.prewarmed, alpine()) + seq![
                ActView::Create(
                    BoxSpecView { volumes: numbered_volumes(self.host_dirs@), ..alpine() },
                ),
                ActView::Guard,
                ActView::Start,
                ActView::Stop,
            ],
    {
        Plan::new().then_warm_if(self.needs_prewarm(), alpine_options()).then_do(
            Act::Create(self.options()),
        ).then_do(Act::Guard).then_do(Act::Start).then_do(Act::Stop)
    }

    /// The metrics of an iteration.
    pub fn metrics(&self, create: Span, start: Span) -> (r: Metrics)
        ensures
            r@ == none().insert("volumes_n"@, Double::integer(2)).insert(
                "volumes_create_ms"@,
                create.milliseconds(),
            ).insert("volumes_start_ms"@, start.milliseconds()),
    {
        NameMap::new().with("volumes_n", Double::from_u64(2)).with(
            "volumes_create_ms",
            create.as_ms(),
        ).with("volumes_start_ms", start.as_ms())
    }
}

} // verus!
