# swiftcore

The core of a small x86_64 operating system, written in Verus: every
function under `src/` carries a contract that Verus proves, except one
trusted wrapper, `text::string_from_utf8`, whose contract states what
`String::from_utf8` does.

- `src/task/`: processes, threads, the thread queue and the round-robin
  scheduler, with the laws that tie them together (`task/laws.rs`).
- `src/ext2/`, `src/initfs.rs`, `src/ramfs.rs`, `src/vfs.rs`: the file
  systems: a read-only ext2 reader over any block device, the in-memory
  boot file system, and the small in-memory file service.
- `src/disk.rs`, `src/fs_service.rs`, `src/fs_server.rs`, `src/user/`:
  the messages between programs, the disk service and the file service
  (the capabilities each request needs, its reply, when to mount ext2
  again), and what a program makes of the kernel's answers.
- `src/capability/`, `src/gate.rs`, `src/boot.rs`, `src/manifest.rs`: the
  capability rules, the services that check them, and the order in which
  the system starts its services.
- `src/vga.rs`, `src/ui.rs`: the text console on the framebuffer, as
  drawing steps, and the text elements of the interface.

`app/` holds what talks to the hardware or the kernel: the context switch,
the system-call instructions, the framebuffer, and the main loops of the
services, which hand each message to the library and carry out its answer.
`tests/` runs the library on concrete values.
