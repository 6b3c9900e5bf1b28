# k8netd

A rootless userspace network for the VMs of one host: an L2 switch between
vhost-user ports, with addresses, DHCP and DNS on each network's gateway, and a
`passt` process per VM as its WAN. It is controlled by JSON-RPC over a Unix
socket.

The decisions are in a library that is verified with [Verus]; the program around
it does the input and output.

[Verus]: https://github.com/verus-lang/verus

## Layout

| Path | What |
| ---- | ---- |
| `src/` | The verified library. |
| `app/` | The daemon: sockets, files, processes, threads, logging. |
| `tests/` | Tests of the library. |

In `src/`:

| Module | What |
| ------ | ---- |
| `text`, `bytes`, `names`, `net`, `json` | Characters and numbers, maps by name, addresses, JSON values. |
| `model`, `ipam`, `state` | Networks, ports and published forwards, the bindings of addresses, and what is kept of them. |
| `switch`, `packet` | The MAC table, forwarding, the gateway, and the packets that the gateway sends. |
| `dhcp`, `dns`, `passt` | The services, and the WAN. |
| `protocol`, `params`, `server`, `memory` | Requests and responses, their routing, and a control plane that lives in memory. |
| `dataplane`, `vhost` | The control plane of live ports, what becomes of the frames they carry, and the rules of their virtqueues. |
| `config` | The configuration of the daemon. |

## What is stated

Every function says what it returns or changes, for every input. The functions
named `law_..` state what holds across functions: for instance that a frame never
leaves its network, that an attached VM is offered just the address that is bound
to it, that no host port is published twice, that a response answers the query
it was sent for, that every operation keeps the state sound and writes down what
it changes, and that a restart loses nothing.

Not proved, but relied on, are the few functions marked
`#[verifier::external_body]` and `assume_specification`: DHCP packets are read and
written by `dhcproto`, DNS messages by `hickory-proto`. Each says what it claims
of the function that it calls.

## Configuration

Flags come before the environment, and the environment before the defaults.

| Flag | Variable | Default |
| ---- | -------- | ------- |
| `--socket-dir` | `K8NETD_SOCKET_DIR` | `/run/user/1000/k8snet` |
| `--passt-binary` | `K8NETD_PASST_BINARY` | `passt` |
| `--upstream-dns` | `K8NETD_UPSTREAM_DNS` | `1.1.1.1,8.8.8.8` |
| `--mtu` | `K8NETD_MTU` | `1500` |
| | `K8NETD_PUBLISH_RANGE` | `20000-21000` |
