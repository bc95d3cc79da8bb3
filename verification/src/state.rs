//! The signal network: processes, nets, four-valued values, sensitivity.
//!
//! Processes and nets live in two arenas and refer to each other by stable
//! integer handles, never by owning references. A handle passed to any
//! operation is checked against the arena and rejected with
//! [`SimError::InvalidHandle`] when out of range; a second driver for a net
//! that already has one is rejected with [`SimError::ConflictingDriver`],
//! so a net's driver is never silently overwritten.

use vstd::prelude::*;

verus! {

/// Four-valued logic: a wire is driven to zero or one, undriven
/// (high-impedance), or in an unknown/conflicting state.
#[derive(Debug, PartialEq, Eq, Clone, Copy)]
pub enum Value {
    HIGHIMP,
    UNKNOWN,
    ZERO,
    ONE,
}

/// Why a network operation was rejected.
#[derive(Debug, PartialEq, Eq, Clone, Copy)]
pub enum SimError {
    /// A process or net handle lies outside the arena.
    InvalidHandle,
    /// The net already has a driver, or the process already drives a net.
    ConflictingDriver,
}

/// A logic element: its ordered input slots (each a net handle or
/// unconnected), the net it drives (if any), and its last computed output.
pub struct Process {
    pub inputs: Vec<Option<usize>>,
    pub output: Option<usize>,
    pub output_value: Value,
}

impl Process {
    fn with_output(value: Value) -> (p: Self)
        ensures
            p.inputs@ == Seq::<Option<usize>>::empty(),
            p.output is None,
            p.output_value == value,
    {
        Process { inputs: vec![], output: None, output_value: value }
    }

    fn new() -> (p: Self)
        ensures
            p.inputs@ == Seq::<Option<usize>>::empty(),
            p.output is None,
            p.output_value == Value::HIGHIMP,
    {
        Process::with_output(Value::HIGHIMP)
    }
}

/// A wire: at most one driving process, and the processes sensitive to it
/// (those that declared it as an input), in registration order.
pub struct Net {
    pub driver: Option<usize>,
    pub sensitive_processes: Vec<usize>,
}

impl Net {
    fn new() -> (n: Self)
        ensures
            n.driver is None,
            n.sensitive_processes@ == Seq::<usize>::empty(),
    {
        Net { driver: None, sensitive_processes: vec![] }
    }

    fn add_sensitive_process(&mut self, proc_index: usize)
        ensures
            final(self).sensitive_processes@ == old(self).sensitive_processes@.push(proc_index),
            final(self).driver == old(self).driver,
    {
        self.sensitive_processes.push(proc_index);
    }
}

/// `list` with every occurrence of `p` removed, order otherwise kept.
pub open spec fn without(list: Seq<usize>, p: usize) -> Seq<usize> {
    list.filter(|q: usize| q != p)
}

/// How often `p` occurs in `list`.
pub open spec fn occurrences(list: Seq<usize>, p: usize) -> nat {
    list.filter(|q: usize| q == p).len()
}

proof fn lemma_without_push(s: Seq<usize>, x: usize, p: usize)
    ensures
        without(s.push(x), p) == if x != p {
            without(s, p).push(x)
        } else {
            without(s, p)
        },
{
    broadcast use Seq::lemma_filter_push;

}

proof fn lemma_occurrences_push(s: Seq<usize>, x: usize, p: usize)
    ensures
        occurrences(s.push(x), p) == occurrences(s, p) + (if x == p {
            1nat
        } else {
            0nat
        }),
{
    broadcast use Seq::lemma_filter_push;
    broadcast use Seq::lemma_filter_len_push;

}

proof fn lemma_occurrences_absent(s: Seq<usize>, p: usize)
    requires
        forall|i: int| 0 <= i < s.len() ==> s[i] != p,
    ensures
        occurrences(s, p) == 0,
    decreases s.len(),
{
    if s.len() > 0 {
        lemma_occurrences_absent(s.drop_last(), p);
        lemma_occurrences_push(s.drop_last(), s.last(), p);
        assert(s.drop_last().push(s.last()) =~= s);
    }
}

/// A copy of `list` with every occurrence of `p` removed.
fn retain_without(list: &Vec<usize>, p: usize) -> (r: Vec<usize>)
    ensures
        r@ == without(list@, p),
        forall|i: int| 0 <= i < r@.len() ==> list@.contains(#[trigger] r@[i]),
        forall|i: int| 0 <= i < r@.len() ==> r@[i] != p,
{
    let mut r: Vec<usize> = Vec::new();
    let mut i: usize = 0;
    while i < list.len()
        invariant
            i <= list@.len(),
            r@ == without(list@.take(i as int), p),
            forall|k: int| 0 <= k < r@.len() ==> list@.contains(#[trigger] r@[k]),
            forall|k: int| 0 <= k < r@.len() ==> r@[k] != p,
        decreases list@.len() - i,
    {
        proof {
            list@.lemma_take_succ_push(i as int);
            lemma_without_push(list@.take(i as int), list@[i as int], p);
        }
        if list[i] != p {
            r.push(list[i]);
            proof {
                assert(list@.contains(list@[i as int]));
            }
        }
        i += 1;
    }
    proof {
        assert(list@.take(list@.len() as int) =~= list@);
    }
    r
}

/// Whether `list` holds the handle `x`.
fn contains_handle(list: &Vec<usize>, x: usize) -> (r: bool)
    ensures
        r == list@.contains(x),
{
    let mut i: usize = 0;
    while i < list.len()
        invariant
            i <= list@.len(),
            forall|j: int| 0 <= j < i ==> list@[j] != x,
        decreases list@.len() - i,
    {
        if list[i] == x {
            proof {
                assert(list@.contains(list@[i as int]));
            }
            return true;
        }
        i += 1;
    }
    false
}

/// The value one input slot resolves to: an unconnected slot and an
/// undriven net read as high impedance; a driven net reads as its driver's
/// last computed output. Resolution is exactly one hop.
pub open spec fn resolved_input(s: State, slot: Option<usize>) -> Value {
    match slot {
        None => Value::HIGHIMP,
        Some(n) => match s.nets@[n as int].driver {
            None => Value::HIGHIMP,
            Some(d) => s.processes@[d as int].output_value,
        },
    }
}

/// The network: arenas of processes and nets, addressed by handle.
pub struct State {
    pub processes: Vec<Process>,
    pub nets: Vec<Net>,
}

impl State {
    /// Well-formedness of the topology: every stored handle lies in its
    /// arena, and driving is mutual and unique — a net records process `p`
    /// as driver exactly when `p` records that net as its output.
    pub open spec fn wf(&self) -> bool {
        &&& forall|p: int, k: int|
            0 <= p < self.processes@.len() && 0 <= k < self.processes@[p].inputs@.len() ==> ((
            #[trigger] self.processes@[p].inputs@[k]) matches Some(n) ==> n < self.nets@.len())
        &&& forall|p: int|
            0 <= p < self.processes@.len() ==> ((#[trigger] self.processes@[p].output) matches Some(
                n,
            ) ==> n < self.nets@.len() && self.nets@[n as int].driver == Some(p as usize))
        &&& forall|n: int|
            0 <= n < self.nets@.len() ==> ((#[trigger] self.nets@[n].driver) matches Some(d) ==> d
                < self.processes@.len() && self.processes@[d as int].output == Some(n as usize))
        &&& forall|n: int, k: int|
            0 <= n < self.nets@.len() && 0 <= k < self.nets@[n].sensitive_processes@.len() ==> (
            #[trigger] self.nets@[n].sensitive_processes@[k]) < self.processes@.len()
    }

    /// An empty network.
    pub fn new() -> (s: State)
        ensures
            s.wf(),
            s.processes@.len() == 0,
            s.nets@.len() == 0,
    {
        State { processes: vec![], nets: vec![] }
    }

    /// Appends a fresh process — no inputs, no output net, output value
    /// high impedance — and returns its handle. Handles are never reused.
    pub fn add_process(&mut self) -> (handle: usize)
        requires
            old(self).wf(),
        ensures
            final(self).wf(),
            handle == old(self).processes@.len(),
            final(self).processes@.len() == old(self).processes@.len() + 1,
            final(self).processes@[handle as int].inputs@ == Seq::<Option<usize>>::empty(),
            final(self).processes@[handle as int].output is None,
            final(self).processes@[handle as int].output_value == Value::HIGHIMP,
            forall|p: int|
                0 <= p < old(self).processes@.len() ==> final(self).processes@[p] == old(self).processes@[p],
            final(self).nets@ == old(self).nets@,
    {
        self.processes.push(Process::new());
        self.processes.len() - 1
    }

    /// Appends a fresh net — undriven, empty sensitivity list — and
    /// returns its handle. Handles are never reused.
    pub fn add_net(&mut self) -> (handle: usize)
        requires
            old(self).wf(),
        ensures
            final(self).wf(),
            handle == old(self).nets@.len(),
            final(self).nets@.len() == old(self).nets@.len() + 1,
            final(self).nets@[handle as int].driver is None,
            final(self).nets@[handle as int].sensitive_processes@ == Seq::<usize>::empty(),
            forall|n: int|
                0 <= n < old(self).nets@.len() ==> final(self).nets@[n] == old(self).nets@[n],
            final(self).processes@ == old(self).processes@,
    {
        self.nets.push(Net::new());
        self.nets.len() - 1
    }

    /// Replaces the process's ordered input list (order kept verbatim,
    /// duplicates legal) and re-registers its sensitivity from scratch: the
    /// process ends up in the sensitivity list of exactly the nets the new
    /// list names, once per net, appended in place of any stale
    /// registrations, which are dropped. Net drivers and every other
    /// process are untouched. An out-of-range process or net handle is
    /// rejected and nothing changes.
    pub fn set_process_inputs(&mut self, process_index: usize, input_nets: Vec<usize>) -> (r:
        Result<(), SimError>)
        requires
            old(self).wf(),
        ensures
            final(self).wf(),
            r is Ok <==> (process_index < old(self).processes@.len() && (forall|k: int|
                0 <= k < input_nets@.len() ==> input_nets@[k] < old(self).nets@.len())),
            r is Err ==> *final(self) == *old(self) && r == Err::<(), SimError>(
                SimError::InvalidHandle,
            ),
            r is Ok ==> {
                &&& final(self).processes@.len() == old(self).processes@.len()
                &&& final(self).nets@.len() == old(self).nets@.len()
                &&& final(self).processes@[process_index as int].inputs@.len()
                    == input_nets@.len()
                &&& forall|k: int|
                    0 <= k < input_nets@.len() ==> final(self).processes@[process_index as int].inputs@[k] == Some(input_nets@[k])
                &&& final(self).processes@[process_index as int].output == old(self).processes@[process_index as int].output
                &&& final(self).processes@[process_index as int].output_value == old(self).processes@[process_index as int].output_value
                &&& forall|p: int|
                    0 <= p < old(self).processes@.len() && p != process_index ==> final(self).processes@[p] == old(self).processes@[p]
                &&& forall|n: int|
                    0 <= n < old(self).nets@.len() ==> (#[trigger] final(self).nets@[n]).driver
                        == old(self).nets@[n].driver
                &&& forall|n: int|
                    0 <= n < old(self).nets@.len() ==> (#[trigger] final(self).nets@[n]).sensitive_processes@ == without(
                        old(self).nets@[n].sensitive_processes@,
                        process_index,
                    ) + (if input_nets@.contains(n as usize) {
                        seq![process_index]
                    } else {
                        Seq::<usize>::empty()
                    })
                &&& forall|n: int|
                    0 <= n < old(self).nets@.len() ==> occurrences(
                        (#[trigger] final(self).nets@[n]).sensitive_processes@,
                        process_index,
                    ) == (if input_nets@.contains(n as usize) {
                        1nat
                    } else {
                        0nat
                    })
            },
    {
        if process_index >= self.processes.len() {
            return Err(SimError::InvalidHandle);
        }
        let mut k: usize = 0;
        while k < input_nets.len()
            invariant
                k <= input_nets@.len(),
                *self == *old(self),
                old(self).wf(),
                forall|j: int| 0 <= j < k ==> input_nets@[j] < self.nets@.len(),
            decreases input_nets@.len() - k,
        {
            if input_nets[k] >= self.nets.len() {
                return Err(SimError::InvalidHandle);
            }
            k += 1;
        }

        let mut new_inputs: Vec<Option<usize>> = Vec::new();
        let mut i: usize = 0;
        while i < input_nets.len()
            invariant
                i <= input_nets@.len(),
                *self == *old(self),
                new_inputs@.len() == i,
                forall|j: int| 0 <= j < i ==> new_inputs@[j] == Some(input_nets@[j]),
            decreases input_nets@.len() - i,
        {
            new_inputs.push(Some(input_nets[i]));
            i += 1;
        }

        let ghost nets0 = self.nets@;
        let ghost procs0 = self.processes@;
        let mut n: usize = 0;
        while n < self.nets.len()
            invariant
                n <= nets0.len(),
                nets0 == old(self).nets@,
                procs0 == old(self).processes@,
                old(self).wf(),
                self.nets@.len() == nets0.len(),
                self.processes@ == procs0,
                process_index < procs0.len(),
                forall|j: int| 0 <= j < input_nets@.len() ==> input_nets@[j] < nets0.len(),
                forall|j: int| n <= j < nets0.len() ==> self.nets@[j] == nets0[j],
                forall|j: int|
                    0 <= j < n ==> (#[trigger] self.nets@[j]).driver == nets0[j].driver,
                forall|j: int|
                    0 <= j < n ==> (#[trigger] self.nets@[j]).sensitive_processes@ == without(
                        nets0[j].sensitive_processes@,
                        process_index,
                    ) + (if input_nets@.contains(j as usize) {
                        seq![process_index]
                    } else {
                        Seq::<usize>::empty()
                    }),
                forall|j: int|
                    0 <= j < n ==> occurrences(
                        (#[trigger] self.nets@[j]).sensitive_processes@,
                        process_index,
                    ) == (if input_nets@.contains(j as usize) {
                        1nat
                    } else {
                        0nat
                    }),
                forall|j: int, k2: int|
                    0 <= j < n && 0 <= k2 < self.nets@[j].sensitive_processes@.len() ==> (
                    #[trigger] self.nets@[j].sensitive_processes@[k2]) < procs0.len(),
            decreases nets0.len() - n,
        {
            let filtered = retain_without(&self.nets[n].sensitive_processes, process_index);
            let ghost f0 = filtered@;
            proof {
                lemma_occurrences_absent(f0, process_index);
            }
            self.nets[n].sensitive_processes = filtered;
            if contains_handle(&input_nets, n) {
                self.nets[n].add_sensitive_process(process_index);
                proof {
                    lemma_occurrences_push(f0, process_index, process_index);
                    assert(f0.push(process_index) =~= without(
                        nets0[n as int].sensitive_processes@,
                        process_index,
                    ) + seq![process_index]);
                }
            } else {
                proof {
                    assert(f0 =~= without(nets0[n as int].sensitive_processes@, process_index)
                        + Seq::<usize>::empty());
                }
            }
            n += 1;
        }

        self.processes[process_index].inputs = new_inputs;
        Ok(())
    }

    /// Records `output_net` as the process's driven net and the process as
    /// the net's driver. A net that already has a driver, or a process that
    /// already drives a net, is rejected with `ConflictingDriver`: a driver
    /// claim is never silently overwritten, and no sensitivity list changes
    /// either way. Out-of-range handles are rejected first.
    pub fn set_process_output(&mut self, process_index: usize, output_net: usize) -> (r: Result<
        (),
        SimError,
    >)
        requires
            old(self).wf(),
        ensures
            final(self).wf(),
            r is Ok <==> (process_index < old(self).processes@.len() && output_net < old(self).nets@.len() && old(self).processes@[process_index as int].output is None && old(self).nets@[output_net as int].driver is None),
            r is Err ==> *final(self) == *old(self),
            (process_index >= old(self).processes@.len() || output_net >= old(self).nets@.len())
                ==> r == Err::<(), SimError>(SimError::InvalidHandle),
            (process_index < old(self).processes@.len() && output_net < old(self).nets@.len() && !(
            old(self).processes@[process_index as int].output is None && old(self).nets@[output_net as int].driver is None)) ==> r == Err::<(), SimError>(
                SimError::ConflictingDriver,
            ),
            r is Ok ==> {
                &&& final(self).processes@.len() == old(self).processes@.len()
                &&& final(self).nets@.len() == old(self).nets@.len()
                &&& final(self).processes@[process_index as int].output == Some(output_net)
                &&& final(self).processes@[process_index as int].inputs == old(self).processes@[process_index as int].inputs
                &&& final(self).processes@[process_index as int].output_value == old(self).processes@[process_index as int].output_value
                &&& forall|p: int|
                    0 <= p < old(self).processes@.len() && p != process_index ==> final(self).processes@[p] == old(self).processes@[p]
                &&& final(self).nets@[output_net as int].driver == Some(process_index)
                &&& final(self).nets@[output_net as int].sensitive_processes == old(self).nets@[output_net as int].sensitive_processes
                &&& forall|n: int|
                    0 <= n < old(self).nets@.len() && n != output_net ==> final(self).nets@[n]
                        == old(self).nets@[n]
            },
    {
        if process_index >= self.processes.len() || output_net >= self.nets.len() {
            return Err(SimError::InvalidHandle);
        }
        if self.processes[process_index].output.is_some() || self.nets[output_net].driver.is_some()
        {
            return Err(SimError::ConflictingDriver);
        }
        self.processes[process_index].output = Some(output_net);
        self.nets[output_net].driver = Some(process_index);
        Ok(())
    }

    /// Stores the process's newly computed output value — the only
    /// mutation permitted once simulation has begun. An out-of-range handle
    /// is rejected.
    pub fn set_process_output_value(&mut self, process_index: usize, output_value: Value) -> (r:
        Result<(), SimError>)
        requires
            old(self).wf(),
        ensures
            final(self).wf(),
            r is Ok <==> process_index < old(self).processes@.len(),
            r is Err ==> *final(self) == *old(self) && r == Err::<(), SimError>(
                SimError::InvalidHandle,
            ),
            r is Ok ==> {
                &&& final(self).nets@ == old(self).nets@
                &&& final(self).processes@.len() == old(self).processes@.len()
                &&& final(self).processes@[process_index as int].output_value == output_value
                &&& final(self).processes@[process_index as int].inputs == old(self).processes@[process_index as int].inputs
                &&& final(self).processes@[process_index as int].output == old(self).processes@[process_index as int].output
                &&& forall|p: int|
                    0 <= p < old(self).processes@.len() && p != process_index ==> final(self).processes@[p] == old(self).processes@[p]
            },
    {
        if process_index >= self.processes.len() {
            return Err(SimError::InvalidHandle);
        }
        self.processes[process_index].output_value = output_value;
        Ok(())
    }

    /// The processes sensitive to a net — those whose current input list
    /// names it — in registration order. An out-of-range net handle is
    /// rejected.
    pub fn get_sensitive_processes(&self, net_index: usize) -> (r: Result<Vec<usize>, SimError>)
        ensures
            r is Ok <==> net_index < self.nets@.len(),
            r is Err ==> r == Err::<Vec<usize>, SimError>(SimError::InvalidHandle),
            r matches Ok(list) ==> list@ == self.nets@[net_index as int].sensitive_processes@,
    {
        if net_index >= self.nets.len() {
            return Err(SimError::InvalidHandle);
        }
        let src = &self.nets[net_index].sensitive_processes;
        let mut list: Vec<usize> = Vec::new();
        let mut i: usize = 0;
        while i < src.len()
            invariant
                i <= src@.len(),
                list@ == src@.take(i as int),
            decreases src@.len() - i,
        {
            proof {
                src@.lemma_take_succ_push(i as int);
            }
            list.push(src[i]);
            i += 1;
        }
        proof {
            assert(src@.take(src@.len() as int) =~= src@);
        }
        Ok(list)
    }

    /// Resolves the process's inputs in slot order, one value per declared
    /// slot: an unconnected slot or an undriven net reads as high
    /// impedance; a driven net reads as its driver's last computed output.
    /// Resolution is exactly one hop. An out-of-range process handle is
    /// rejected.
    pub fn get_process_input_values(&self, process_index: usize) -> (r: Result<Vec<Value>, SimError
    >)
        requires
            self.wf(),
        ensures
            r is Ok <==> process_index < self.processes@.len(),
            r is Err ==> r == Err::<Vec<Value>, SimError>(SimError::InvalidHandle),
            r matches Ok(vals) ==> vals@.len()
                == self.processes@[process_index as int].inputs@.len() && forall|j: int|
                0 <= j < vals@.len() ==> vals@[j] == resolved_input(
                    *self,
                    self.processes@[process_index as int].inputs@[j],
                ),
    {
        if process_index >= self.processes.len() {
            return Err(SimError::InvalidHandle);
        }
        let mut vals: Vec<Value> = Vec::new();
        let mut i: usize = 0;
        let num = self.processes[process_index].inputs.len();
        while i < num
            invariant
                self.wf(),
                process_index < self.processes@.len(),
                num == self.processes@[process_index as int].inputs@.len(),
                i <= num,
                vals@.len() == i,
                forall|j: int|
                    0 <= j < i ==> vals@[j] == resolved_input(
                        *self,
                        self.processes@[process_index as int].inputs@[j],
                    ),
            decreases num - i,
        {
            let slot = self.processes[process_index].inputs[i];
            let v = match slot {
                None => Value::HIGHIMP,
                Some(net_index) => match self.nets[net_index].driver {
                    None => Value::HIGHIMP,
                    Some(driver_index) => self.processes[driver_index].output_value,
                },
            };
            vals.push(v);
            i += 1;
        }
        Ok(vals)
    }
}

} // verus!
