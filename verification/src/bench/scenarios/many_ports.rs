//! Creating and starting a box with many forwarded ports.

use crate::bench::clock::Span;
use crate::bench::scenarios::common::{
    alpine, alpine_options, none, BoxSpec, BoxSpecView, Home, Metrics, Port, Protocol,
};
use crate::bench::scenarios::plan::{Act, ActView, Plan};
use crate::names::NameMap;
use crate::number::double::Double;
use vstd::prelude::*;

verus! {

/// How many ports are forwarded.
pub const PORTS: u16 = 16;

/// The first of the ports in the box.
pub const GUEST_BASE: u16 = 18000;

/// `throughput-many-ports-setup`.
pub struct ManyPorts {
    pub home: Home,
}

/// The ports: consecutive ones in the box, each forwarded from one that the system picks.
pub open spec fn many_ports(n: nat) -> Seq<Port> {
    Seq::new(
        n,
        |i: int| Port { host: None, guest: (18000 + i) as u16, protocol: Protocol::Tcp },
    )
}

impl ManyPorts {
    pub fn new() -> (r: ManyPorts)
        ensures
            r.home.path is None,
    {
        ManyPorts { home: Home::new() }
    }

    pub fn name(&self) -> (r: &'static str)
        ensures
            r@ == "throughput-many-ports-setup"@,
    {
        "throughput-many-ports-setup"
    }

    /// The box.
    pub fn options(&self) -> (r: BoxSpec)
        ensures
            r@ == (BoxSpecView { ports: many_ports(16), ..alpine() }),
    {
        let mut ports: Vec<Port> = Vec::new();
        let mut i: u16 = 0;
        while i < PORTS
            invariant
                i <= 16,
                ports@ == many_ports(i as nat),
            decreases 16 - i,
        {
            ports.push(Port { host: None, guest: GUEST_BASE + i, protocol: Protocol::Tcp });
            i = i + 1;
            assert(ports@ =~= many_ports(i as nat));
        }
        let mut spec = alpine_options();
        spec.ports = ports;
        spec
    }

    /// The acts of an iteration.
    pub fn plan(&self) -> (r: Plan)
        ensures
            r@ == seq![
                ActView::Create(BoxSpecView { ports: many_ports(16), ..alpine() }),
                ActView::Guard,
                ActView::Start,
                ActView::Stop,
            ],
    {
        Plan::new().then_do(Act::Create(self.options())).then_do(Act::Guard).then_do(
            Act::Start,
        ).then_do(Act::Stop)
    }

    /// The metrics of an iteration.
    pub fn metrics(&self, create: Span, start: Span) -> (r: Metrics)
        ensures
            r@ == none().insert("many_ports_n"@, Double::integer(16)).insert(
                "many_ports_create_ms"@,
                create.milliseconds(),
            ).insert("many_ports_start_ms"@, start.milliseconds()),
    {
        NameMap::new().with("many_ports_n", Double::from_u64(16)).with(
            "many_ports_create_ms",
            create.as_ms(),
        ).with("many_ports_start_ms", start.as_ms())
    }
}

} // verus!
