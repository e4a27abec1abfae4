# minikernel

The core of a small AArch64/ARM kernel, written in Verus.

- `src/kalloc/slab.rs`: the kernel heap, a slab allocator with eight size
  classes (16 to 2048 bytes) whose free lists are threaded through the free
  blocks' first words. Contracts state the layout `init` builds, what each
  allocation and release does to the free lists and to memory, and laws such
  as "a freed block is the next one handed out".
- `src/io/device/uart.rs`: the PL011 UART driver over a model of its register
  block; what goes on the line is recorded, with `\n` sent as `\r\n`.
- `src/sync.rs`: a spin lock and a value made on first use.
- `src/sys/vm.rs`: AArch64 table and page descriptors, through the `bitfield`
  crate's bit-range accessors.
- `src/atomic.rs`, `src/mutex.rs`, `src/kmalloc.rs`, `src/kbox.rs`,
  `src/io/`, `src/boot.rs`: ordered atomic words, a lock on one, an empty
  slab allocator, a heap box, the I/O traits and the boot-time section copy.

`app/` holds what needs the machine: the boot entry and exception vectors
(inline assembly), memory barriers, the static heap region and the console
device, and `main`.
