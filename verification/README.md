# rtcnet

Verified decision logic for a WebRTC stack, written in Verus.

- `addr`, `prefixes`, `interfaces`: which local addresses become host candidates, with one IPv6
  address for each interface and prefix.
- `messages`: checking the username and the integrity of STUN messages, reading mapped addresses,
  and building and reading the messages of a binding request.
- `ports`: which UDP ports to try for a listener.
- `adapters`, `adapter_codes`: the adapter list of Windows as interfaces with netmasks.
- `rto`, `rtx_timer`: retransmission timeouts and the timer that backs them off.
- `association`: what an SCTP association has in flight, with scenarios for loss recovery.
- `link`, `arrivals`, `workload`: a simulated lossy link and a workload of frames to send over it.
- `bytes`, `text`, `error`: what the others share.

Everything under `src/` is verified. The calls into `stun`, `ipnet` and `rand` stand behind small
wrappers marked `external_body`, each with a comment on what is taken on trust. `app/` holds the
sockets, clocks and system calls around the library, and the arithmetic on fractions.
