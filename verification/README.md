# ufork

A virtual CPU core for actor machines, verified with Verus.

Memory is made of quad-cells (four 32-bit values): a ROM holding a library
of actor behaviors, two RAM half-spaces used by a stop-the-world copying
collector, and a small blob RAM. On top of it sit pairs, dictionaries and
double-ended queues, the event and continuation queues, actor transactions
(commit, abort, revert) and an instruction interpreter with per-sponsor
limits on memory, events and instructions.

## Layout

- `src/value.rs`: the tagged value encoding (fixnums, pointers, capabilities).
- `src/quad.rs`: quad-cells and the instruction constructors.
- `src/cpu.rs`: the core's memory, its mathematical view (`CoreView`), the
  allocator and the machine registers.
- `src/lists.rs`: pairs, lists, dictionaries and deques.
- `src/machine.rs`: queues, the stack, and actor transactions.
- `src/gc.rs`: the copying collector.
- `src/interp.rs`: the interpreter, event dispatch and the run loop.
- `src/image.rs`: the boot image (ROM library, initial RAM, blob header).
- `src/laws.rs`, `src/dict_laws.rs`, `src/deque_laws.rs`, `src/queue_laws.rs`,
  `src/op_laws.rs`, `src/dispatch_laws.rs`, `src/run_laws.rs`: proved
  properties that relate several operations.
- `app/lib.rs`: the embedding side: devices and the loop that serves them.

Every operation is specified by a step function on `CoreView` giving its
result and the memory it leaves; every operation keeps memory well-formed.
The laws include: freeing then reserving reuses the cell; `car`/`cdr` of
`cons`; dictionary lookups after add, set and delete; a deque as a
sequence of items, where push puts an item in front, put puts one at the
back, pop takes the first and pull the last (for cells allocated from the
top of the heap); stack pop at the level of the stack's items, push then
pop, and the roll round-trip; the event and continuation queues as
sequences of cells, where adding appends and taking off gives the first;
injected events go to the front; dispatching to an idle actor, to a busy
one and to a device, and when a dispatch is refused; executing an
instruction that continues moves its continuation to the back of the queue,
and one the sponsor cannot pay for changes nothing; reverting right after a
dispatch undoes it; committing delivers the sent events and marks the actor
idle; what `VM_IF`, `VM_IS_EQ`, `VM_IS_NE`, `VM_PICK`, a binary `VM_ALU`, `VM_SEND`
with one message, `VM_END` with commit and an unknown instruction do; the
run loop stops with `Done(false)` exactly when an instruction or a dispatch
fails or its rounds run out; aborting restores the actor; a collection switches
half-spaces and leaves no reference into the abandoned one.

Devices are not part of the core: `run_loop` hands an event addressed to a
device back to its caller, which runs the device and resumes the loop.
