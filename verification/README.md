# wwwvm

The devices, memory and network side of a small PC whose guest runs in a browser
tab or natively, written in Verus: what every operation does is stated in its
contract and proved.

- `src/`: the library.
  - Port-I/O devices: `pic`, `pit`, `uart`, `keyboard` with `scancode`, `cmos`,
    `ata` with `disk`, `pci`, `rtl8139`, and the `iobus` that joins them, with its
    snapshots.
  - Guest memory with its two memory-mapped timers: `mem`.
  - The guest's network: `switch` joins guests into a LAN; `device`, `nat_stack`,
    `tcp`, `pump` and `queue` connect a guest to the outside; `forwarder` and `dns`
    answer its questions; `allow` is the policy that all of them ask.
  - The relay that browsers connect through: `session`, `limits`, `upstream`, `tls`.
  - Vocabulary: `bits`, `bytes`, `ipv4`, `text`, `util`.
- `tests/`: the library from outside, with smoltcp and rustls-pemfile linked in.
- `app/`: the relay program, and the stack that drives the library with smoltcp,
  threads and sockets.

Functions named `law_…` state what holds of several operations together.
