# openshell-driver-podman

The container descriptions of the OpenShell Podman driver: from a sandbox and
the driver's configuration to the JSON document that the libpod create API
takes. The library is written in Verus; every function states what it returns,
and the statements are proved.

A *nested* sandbox is one container, which may run containers of its own. A
*supervised* sandbox is two: an agent that runs the user's image on an internal
network, and a proxy sidecar through which all of its traffic goes.

## Layout

- `src/container.rs`: names, environment, labels, limits, devices and the three
  container descriptions.
- `src/laws.rs`: what holds of the containers of every sandbox, such as that the
  driver's variables and labels win over the user's, that agent and proxy are on
  the internal network only, and that no CPU quota is zero.
- `src/sandbox.rs`: sandboxes and the driver's configuration.
- `src/container_spec.rs`, `src/document.rs`: the description of a container, its
  JSON document, and that the document loses nothing of it.
- `src/json.rs`: the model of JSON, and the calls into `serde_json` that build
  values. This is the only module with unproved contracts.
- `src/quantity.rs`: CPU and memory quantities.
- `src/cores.rs`, `src/binary64.rs`, `src/digits.rs`: the quota for a decimal
  number of cores, exactly as double precision arithmetic gives it, computed with
  integers.
- `src/text.rs`, `src/views.rs`, `src/string_map.rs`: text, lists and maps.
- `app/lib.rs`: what is read from the host: whether SELinux is enabled.
