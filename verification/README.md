# dnslink

A loader and boot wrapper for DNS-redirection eBPF hooks, with its logic
verified in Verus.

At boot the wrapper mounts procfs and cgroup2, loads an eBPF object, attaches
its three hooks (`connect4`, `sendmsg4`, `recvmsg4`) to the root cgroup, pins
links and maps below a BPF file system, and becomes the real init. Run by hand
(`dnslink attach --cgroup <path>`) it attaches the hooks to a given cgroup and
can watch their hit counters.

| kernel argument        | effect                           | default   |
|------------------------|----------------------------------|-----------|
| `dnslink.gateway=<ip>` | upstream DNS server is `<ip>:53` | `1.1.1.1` |
| `dnslink.port=<port>`  | overrides the upstream port      | `53`      |

## Layout

`src/` is the verified library.

- `bytes`, `text`, `net`, `path`: little-endian integers, decimal and UTF-8
  text, IPv4 addresses, file paths.
- `elf`: sections, symbols and relocations of an eBPF object.
- `bpf`: requests to `bpf(2)` and the verifier log.
- `sys`: arguments of `mount` and `execve`.
- `rule`, `hits`: redirect rules and hit counters.
- `cli`, `cmdline`: program arguments and the kernel command line.
- `loader`, `bpffs`, `init`: the steps of loading the hooks, of preparing the
  BPF file system and of the boot. Each names an action, is told what came of
  it, and names the next one. `loader::laws` states what holds of every load.

`app/` performs those actions: system calls, aya, procfs. A release build of it
embeds `dns_sockaddr.bpf.o` from the root of the project; a debug build reads
that file from the current directory. `tests/` runs the library.

## What is taken on trust

- `String::from_utf8_lossy` decodes valid UTF-8, and is a function of the bytes
  otherwise.
- `String::push` appends a character.
- The text of an operating-system error ends with its number, as in
  `File exists (os error 17)`; the words before it are whatever the system says.
