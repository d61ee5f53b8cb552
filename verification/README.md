# krun_devices

Device logic of a small virtual machine monitor, written in Rust and verified with Verus: the
virtio balloon, the worker of the virtio network device, and the control socket that steers the
balloon at run time.

## Layout

- `src/` is the library. Its functions are proved against their contracts. What they rest on are the
  contracts of `vm_memory` and of the standard library, which are believed: small functions marked
  `external_body` make those calls, and the comment above each says what is claimed.
  - `guest`: guest memory, reached through `vm_memory`. Contracts speak of the addresses that are
    mapped and of the record of loads and stores that the device made; what a load returns is left
    open, since the guest writes the memory too.
  - `queue`: split virtqueues.
  - `balloon`: the configuration space, the queues, and which ranges of memory are released for the
    pages that the guest gives up or reports as free.
  - `net`: receiving and transmitting as state machines, moving frames between chains and buffers,
    completing offloaded checksums, and what the worker does about events.
  - `control`: the commands of the control protocol, its client, and the rate limit.
  - `bytes`, `epoll`, `fs`, `platform`: small parts that the others share.
- `app/` is ordinary Rust around the library: event loops, sockets, interrupts and memory advice.
  Backends, interrupt lines and the event manager are traits there.
- `tests/` runs the library on concrete values.

## How library and host work together

The library makes no system calls. Where an operation needs one, it is split into steps: a function
takes what happened and returns what is to be done next. `NetWorker::process_rx`, for example,
returns `ReadFrame` when a frame is to be read from the backend, and is called again with
`FrameRead` once that is done.

Next to the contracts there are laws: public proof functions that relate several operations, such
as `named_pages_are_released` in `balloon::inflate`, `frames_arrive_in_order` in `net::rx_run` or
`stats_report_the_target_that_was_set` in `control::command`.
