//! The machines a benchmark runs on and the thread counts it tries there.
use vstd::prelude::*;
use vstd::string::StringSliceAdditionalSpecFns;
use crate::params::str_eq;
use vstd::string::StrSliceExecFns;

verus! {

/// A machine to run on.
#[derive(PartialEq, Eq, Debug, Clone)]
pub enum Machine {
    /// A bare-metal machine known by name.
    Baremetal(String),
    /// A virtual machine, sized like the host it runs on.
    Qemu,
}

/// Whether `s` strictly increases.
pub open spec fn strictly_increasing(s: Seq<usize>) -> bool {
    forall|i: int, j: int| 0 <= i < j < s.len() ==> s[i] < s[j]
}

/// The step between tried thread counts on a machine with `max_cores`
/// cores: larger machines take larger steps.
pub open spec fn spec_thread_step(max_cores: usize) -> usize {
    if max_cores > 96 {
        16
    } else if max_cores > 24 {
        8
    } else if max_cores > 16 {
        4
    } else {
        2
    }
}

/// The thread counts tried uniformly up to `max_cores` on `nodes` NUMA
/// nodes: one, every multiple of the step up to `max_cores`, the cores of
/// one node, and all cores.
pub open spec fn in_uniform_defaults(x: usize, max_cores: usize, nodes: usize) -> bool {
    ||| x == 1
    ||| (x > 0 && x <= max_cores && x % spec_thread_step(max_cores) == 0)
    ||| x == max_cores / nodes
    ||| x == max_cores
}

/// The thread counts tried uniformly on a machine with `max_cores` cores on
/// `nodes` NUMA nodes, in increasing order without repeats.
pub fn thread_defaults_for(max_cores: usize, nodes: usize) -> (r: Vec<usize>)
    requires
        nodes > 0,
        max_cores < usize::MAX,
    ensures
        strictly_increasing(r@),
        forall|x: usize| r@.contains(x) <==> in_uniform_defaults(x, max_cores, nodes),
{
    let step: usize = if max_cores > 96 {
        16
    } else if max_cores > 24 {
        8
    } else if max_cores > 16 {
        4
    } else {
        2
    };
    let per_node = max_cores / nodes;
    let last: usize = if max_cores > 1 { max_cores } else { 1 };
    let mut r: Vec<usize> = Vec::new();
    let mut x: usize = 0;
    while x <= last
        invariant
            step == spec_thread_step(max_cores),
            per_node == max_cores / nodes,
            nodes > 0,
            last == (if max_cores > 1 { max_cores } else { 1 }),
            last < usize::MAX,
            x <= last + 1,
            strictly_increasing(r@),
            forall|i: int| 0 <= i < r@.len() ==> r@[i] < x,
            forall|y: usize| r@.contains(y) <==> (y < x && in_uniform_defaults(y, max_cores, nodes)),
        decreases last + 1 - x,
    {
        let member = x == 1 || (x > 0 && x % step == 0) || x == per_node || x == max_cores;
        let ghost before = r@;
        if member {
            r.push(x);
        }
        proof {
            assert(member == in_uniform_defaults(x, max_cores, nodes));
            assert forall|y: usize| r@.contains(y) <==> (y < x + 1 && in_uniform_defaults(y, max_cores, nodes)) by {
                if member {
                    lemma_push_contains(before, x, y);
                }
            }
        }
        x = x + 1;
    }
    proof {
        assert forall|y: usize| in_uniform_defaults(y, max_cores, nodes) implies y <= last by {
            assert(max_cores / nodes <= max_cores) by (nonlinear_arith)
                requires
                    nodes > 0,
            ;
        }
    }
    r
}

proof fn lemma_push_contains(s: Seq<usize>, v: usize, y: usize)
    ensures
        s.push(v).contains(y) <==> (s.contains(y) || y == v),
{
    if s.contains(y) {
        let k = choose|k: int| 0 <= k < s.len() && s[k] == y;
        assert(s.push(v)[k] == y);
    }
    if y == v {
        assert(s.push(v)[s.len() as int] == y);
    }
    if s.push(v).contains(y) {
        let k = choose|k: int| 0 <= k < s.push(v).len() && s.push(v)[k] == y;
        if k < s.len() {
            assert(s[k] == y);
        }
    }
}

/// The indices kept from a list of `len` thread counts: the two lowest, the
/// middle one and the three highest.
pub open spec fn kept_index(i: int, len: int) -> bool {
    0 <= i < len && (i < 2 || i == len / 2 || i >= len - 3)
}

/// A shorter list from the uniform one `uniform`: its two lowest, its
/// middle and its three highest counts, in increasing order.
pub fn thread_defaults_low_mid_high(uniform: &Vec<usize>) -> (r: Vec<usize>)
    requires
        strictly_increasing(uniform@),
    ensures
        strictly_increasing(r@),
        forall|x: usize| r@.contains(x) <==> exists|i: int| kept_index(i, uniform@.len() as int) && uniform@[i] == x,
{
    let len = uniform.len();
    let mut r: Vec<usize> = Vec::new();
    let mut i: usize = 0;
    while i < len
        invariant
            len == uniform@.len(),
            i <= len,
            strictly_increasing(uniform@),
            strictly_increasing(r@),
            forall|k: int| 0 <= k < r@.len() ==> (i > 0 && r@[k] <= uniform@[i - 1]),
            forall|x: usize| r@.contains(x) <==> exists|j: int| 0 <= j < i && kept_index(j, len as int) && uniform@[j] == x,
        decreases len - i,
    {
        let keep = i < 2 || i == len / 2 || len - i <= 3;
        let ghost before = r@;
        if keep {
            r.push(uniform[i]);
        }
        proof {
            assert forall|x: usize| r@.contains(x) <==> exists|j: int| 0 <= j < i + 1 && kept_index(j, len as int) && uniform@[j] == x by {
                assert(keep == kept_index(i as int, len as int));
                if keep {
                    lemma_push_contains(before, uniform@[i as int], x);
                    if x == uniform@[i as int] {
                        assert(kept_index(i as int, len as int) && uniform@[i as int] == x);
                    }
                }
                if before.contains(x) {
                    let j = choose|j: int| 0 <= j < i && kept_index(j, len as int) && uniform@[j] == x;
                    assert(0 <= j < i + 1 && kept_index(j, len as int) && uniform@[j] == x);
                }
                if exists|j: int| 0 <= j < i + 1 && kept_index(j, len as int) && uniform@[j] == x {
                    let j = choose|j: int| 0 <= j < i + 1 && kept_index(j, len as int) && uniform@[j] == x;
                    if j == i {
                        assert(keep);
                    }
                }
            }
        }
        i = i + 1;
    }
    r
}

impl Machine {
    pub open spec fn spec_max_cores(&self, host_cores: usize) -> Option<usize> {
        match self {
            Machine::Qemu => Some(host_cores),
            Machine::Baremetal(s) => if s@ == "l0318"@ {
                Some(96)
            } else if s@ == "b1542"@ {
                Some(28)
            } else {
                None
            },
        }
    }

    pub open spec fn spec_max_numa_nodes(&self, host_nodes: usize) -> Option<usize> {
        match self {
            Machine::Qemu => Some(host_nodes),
            Machine::Baremetal(s) => if s@ == "l0318"@ {
                Some(4)
            } else if s@ == "b1542"@ {
                Some(2)
            } else {
                None
            },
        }
    }

    /// The machine's name: its own for a bare-metal one, "qemu" otherwise.
    pub fn name(&self) -> (r: &str)
        ensures
            r@ == (match self {
                Machine::Qemu => "qemu"@,
                Machine::Baremetal(s) => s@,
            }),
    {
        match self {
            Machine::Qemu => "qemu",
            Machine::Baremetal(s) => s.as_str(),
        }
    }

    /// Number of cores: what the host has for a virtual machine
    /// (`host_cores`), the known count of a known bare-metal machine, and
    /// `None` for an unknown one.
    pub fn max_cores(&self, host_cores: usize) -> (r: Option<usize>)
        ensures
            r == self.spec_max_cores(host_cores),
    {
        match self {
            Machine::Qemu => Some(host_cores),
            Machine::Baremetal(s) => {
                if str_eq(s.as_str(), "l0318") {
                    Some(96)
                } else if str_eq(s.as_str(), "b1542") {
                    Some(28)
                } else {
                    None
                }
            },
        }
    }

    /// Number of NUMA nodes: what the host has for a virtual machine
    /// (`host_nodes`), the known count of a known bare-metal machine, and
    /// `None` for an unknown one.
    pub fn max_numa_nodes(&self, host_nodes: usize) -> (r: Option<usize>)
        ensures
            r == self.spec_max_numa_nodes(host_nodes),
    {
        match self {
            Machine::Qemu => Some(host_nodes),
            Machine::Baremetal(s) => {
                if str_eq(s.as_str(), "l0318") {
                    Some(4)
                } else if str_eq(s.as_str(), "b1542") {
                    Some(2)
                } else {
                    None
                }
            },
        }
    }

    /// The thread counts to run on this machine, sampled uniformly (see
    /// `thread_defaults_for`), given what the host reports for a virtual
    /// machine; `None` for an unknown bare-metal machine or one reported
    /// without NUMA nodes.
    pub fn thread_defaults_uniform(&self, host_cores: usize, host_nodes: usize) -> (r: Option<Vec<usize>>)
        ensures
            match (self.spec_max_cores(host_cores), self.spec_max_numa_nodes(host_nodes)) {
                (Some(c), Some(n)) => if n > 0 && c < usize::MAX {
                    r is Some && strictly_increasing(r->Some_0@) && forall|x: usize|
                        r->Some_0@.contains(x) <==> in_uniform_defaults(x, c, n)
                } else {
                    r is None
                },
                _ => r is None,
            },
    {
        let c = match self.max_cores(host_cores) {
            Some(c) => c,
            None => return None,
        };
        let n = match self.max_numa_nodes(host_nodes) {
            Some(n) => n,
            None => return None,
        };
        if n == 0 || c == usize::MAX {
            return None;
        }
        Some(thread_defaults_for(c, n))
    }
}

/// Why the machine could not be determined.
#[derive(PartialEq, Eq, Structural, Clone, Copy, Debug)]
pub enum MachineError {
    /// The machine variable is set but empty.
    EmptyName,
    /// No description file exists for the named machine.
    UnknownMachine,
}

impl Machine {
    /// The machine a run is on, from the value of the machine variable
    /// (`None` when unset) and whether its description file exists: a
    /// virtual machine when unset, else the named bare-metal machine.
    pub fn determine(name: Option<&str>, described: bool) -> (r: Result<Machine, MachineError>)
        ensures
            match name {
                None => r == Ok::<Machine, MachineError>(Machine::Qemu),
                Some(n) => if n@.len() == 0 {
                    r == Err::<Machine, MachineError>(MachineError::EmptyName)
                } else if !described {
                    r == Err::<Machine, MachineError>(MachineError::UnknownMachine)
                } else {
                    r is Ok && (r->Ok_0 matches Machine::Baremetal(s) && s@ == n@)
                },
            },
    {
        match name {
            None => Ok(Machine::Qemu),
            Some(n) => {
                if n.unicode_len() == 0 {
                    Err(MachineError::EmptyName)
                } else if !described {
                    Err(MachineError::UnknownMachine)
                } else {
                    Ok(Machine::Baremetal(n.to_owned()))
                }
            },
        }
    }
}

/// Cores that VMs before the `i`-th got on node `node`, with VMs given to
/// the `n` nodes in turn.
pub open spec fn used_on_node(vms: Seq<usize>, i: int, node: int, n: int) -> nat
    decreases i,
{
    if i <= 0 {
        0
    } else {
        used_on_node(vms, i - 1, node, n) + (if (i - 1) % n == node {
            vms[i - 1] as nat
        } else {
            0nat
        })
    }
}

/// Whether every VM finds room on its node.
pub open spec fn placement_fits(vms: Seq<usize>, cpus: Seq<Seq<u32>>) -> bool {
    forall|i: int| #![trigger vms[i]]
        0 <= i < vms.len() ==> used_on_node(vms, i, i % cpus.len() as int, cpus.len() as int) + vms[i]
            <= cpus[i % cpus.len() as int].len()
}

/// Places VMs on NUMA nodes in turn: VM `i`, asking for `vms[i]` cores, goes
/// to node `i` modulo the node count and takes the next free cores of that
/// node, in the order `cpus_by_node` lists them. `None` when a VM does not
/// fit on its node.
pub fn rackscale_core_affinity(vms: &Vec<usize>, cpus_by_node: &Vec<Vec<u32>>) -> (r: Option<Vec<(usize, Vec<u32>)>>)
    requires
        cpus_by_node@.len() > 0,
    ensures
        r is Some <==> placement_fits(vms@, cpus_by_node.deep_view()),
        r is Some ==> {
            let p = r->Some_0@;
            let n = cpus_by_node@.len() as int;
            &&& p.len() == vms@.len()
            &&& forall|i: int| #![trigger p[i]]
                0 <= i < p.len() ==> p[i].0 == i % n && p[i].1@ == cpus_by_node.deep_view()[i % n].subrange(
                    used_on_node(vms@, i, i % n, n) as int,
                    used_on_node(vms@, i, i % n, n) + vms@[i],
                )
        },
{
    let n = cpus_by_node.len();
    let ghost cpus = cpus_by_node.deep_view();
    let mut next: Vec<usize> = Vec::new();
    let mut j: usize = 0;
    while j < n
        invariant
            j <= n,
            next@.len() == j,
            forall|k: int| 0 <= k < j ==> next@[k] == 0,
        decreases n - j,
    {
        next.push(0);
        j = j + 1;
    }
    let mut out: Vec<(usize, Vec<u32>)> = Vec::new();
    let mut node: usize = 0;
    let mut i: usize = 0;
    while i < vms.len()
        invariant
            n == cpus_by_node@.len() > 0,
            cpus == cpus_by_node.deep_view(),
            i <= vms@.len(),
            node == i % n,
            next@.len() == n,
            forall|k: int| 0 <= k < n ==> next@[k] == used_on_node(vms@, i as int, k, n as int),
            forall|k: int| 0 <= k < n ==> next@[k] <= cpus[k].len(),
            out@.len() == i,
            forall|q: int| #![trigger vms@[q]]
                0 <= q < i ==> used_on_node(vms@, q, q % n as int, n as int) + vms@[q] <= cpus[q % n as int].len(),
            forall|q: int| #![trigger out@[q]]
                0 <= q < i ==> out@[q].0 == q % n as int && out@[q].1@ == cpus[q % n as int].subrange(
                    used_on_node(vms@, q, q % n as int, n as int) as int,
                    used_on_node(vms@, q, q % n as int, n as int) + vms@[q],
                ),
        decreases vms@.len() - i,
    {
        let start = next[node];
        let want = vms[i];
        let row = &cpus_by_node[node];
        assert(row@ == cpus[node as int]);
        if want > row.len() - start {
            proof {
                assert(!(used_on_node(vms@, i as int, (i % n) as int, n as int) + vms@[i as int] <= cpus[(i % n) as int].len()));
            }
            return None;
        }
        let end = start + want;
        let mut cores: Vec<u32> = Vec::new();
        let mut c: usize = start;
        while c < end
            invariant
                start <= c <= end <= row@.len(),
                cores@ == row@.subrange(start as int, c as int),
            decreases end - c,
        {
            cores.push(row[c]);
            c = c + 1;
            assert(cores@ =~= row@.subrange(start as int, c as int));
        }
        out.push((node, cores));
        next.set(node, end);
        proof {
            assert forall|k: int| 0 <= k < n implies next@[k] == used_on_node(vms@, i + 1, k, n as int) by {
                assert(used_on_node(vms@, i + 1, k, n as int) == used_on_node(vms@, i as int, k, n as int) + (if (i as int) % (n as int) == k {
                    vms@[i as int] as nat
                } else {
                    0nat
                }));
            }
            assert forall|q: int| #![trigger out@[q]] 0 <= q < i + 1 implies out@[q].0 == q % n as int && out@[q].1@ == cpus[q % n as int].subrange(
                used_on_node(vms@, q, q % n as int, n as int) as int,
                used_on_node(vms@, q, q % n as int, n as int) + vms@[q],
            ) by {
                if q == i {
                    assert(out@[q].1@ == cores@);
                }
            }
        }
        proof {
            lemma_mod_step(i as int, n as int);
        }
        node = if node + 1 == n { 0 } else { node + 1 };
        i = i + 1;
    }
    Some(out)
}

proof fn lemma_mod_step(i: int, n: int)
    requires
        i >= 0,
        n > 0,
    ensures
        (i + 1) % n == (if i % n + 1 == n { 0 } else { i % n + 1 }),
{
    vstd::arithmetic::div_mod::lemma_fundamental_div_mod(i, n);
    vstd::arithmetic::div_mod::lemma_fundamental_div_mod(i + 1, n);
    vstd::arithmetic::div_mod::lemma_mod_bound(i, n);
    if i % n + 1 == n {
        vstd::arithmetic::div_mod::lemma_mod_multiples_basic(i / n + 1, n);
        assert(i + 1 == (i / n + 1) * n) by (nonlinear_arith)
            requires
                i == n * (i / n) + i % n,
                i % n + 1 == n,
        ;
    } else {
        vstd::arithmetic::div_mod::lemma_mod_add_multiples_vanish(i % n + 1, n);
        vstd::arithmetic::div_mod::lemma_mod_multiples_vanish(i / n, i % n + 1, n);
        assert(i + 1 == n * (i / n) + (i % n + 1));
        vstd::arithmetic::div_mod::lemma_small_mod((i % n + 1) as nat, n as nat);
    }
}

} // verus!
