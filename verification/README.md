# binderbinder

Binder IPC from user space: payloads with objects in them, transactions to local and remote
objects, shared references, services that live as long as someone refers to them.

- `src/` is the library. Everything in it is verified with Verus: the layout of the driver's
  structures, payloads, the tables of a device with their reference counts, what is sent, and
  what is done about each message of the driver. Calls into other crates stand behind small
  functions whose contracts say what is relied on.
- `tests/` runs the library on concrete values.
- `app/` opens devices, maps memory, runs loopers and handlers, mounts the binder file system
  and hands the library what it reads.

Words lie in memory in the byte order of the machine. Sizes and addresses have 64 bits, and ioctl
codes are in the generic encoding; `app/` does not build where either does not hold.

A device is reached through a mutable reference, so a program with several threads keeps it
behind a lock. Handlers are known to the library by the number of a slot.
