# k7s_lib

The decisions of the k7s desktop application, verified with Verus.

- `src/log_filter.rs`: which log directives `RUST_LOG` asks for.
- `src/launch.rs`: the steps that start and set up the application, in order.
- `src/process.rs`: the subscriber and the crypto provider that the process is asked to take.
- `src/sigterm.rs`: saving the window geometry when the process is asked to terminate.
- `src/nodes.rs`: which nodes of a cluster are ready.
- `src/probe.rs`: sampling the node exporter of a node.
- `src/history.rs`: whether the history of a node can be plotted.

`app/` performs what the library decides: it reads the environment, runs Tauri,
waits for signals and talks to the cluster. It needs Tauri and its plugins, and
the crates of the k7s workspace (`k7s_core`, `k7s_commands`, `k7s_server`,
`k7s_deps`).
