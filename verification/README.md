# node_speedtest

A proxy-node speed tester driven by the mihomo (Clash.Meta) core.

- `src/` is the verified library (Verus): subscription and Clash YAML
  parsing, the core's provider configuration, the per-node test sequence,
  the engine's start/stop and
  polling decisions, the bandwidth sampling window, SOCKS5 and STUN framing,
  the Classic STUN NAT prober, TLS verdicts, release and update selection,
  result naming, the history list, and the pixel primitives of the result
  image. Calls into outside crates (serde_json, serde_yaml, regex, base64,
  urlencoding, zip, flate2) sit behind small trusted wrappers whose
  contracts are stated in their doc comments.
- `app/` is the command-line program around it: networking through the core,
  process management, file I/O, font rendering and the float arithmetic of
  rates and layout.
- `tests/` exercises the library on concrete values.
