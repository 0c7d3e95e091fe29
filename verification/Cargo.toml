[package]
name = "depot"
version = "0.1.0"
edition = "2021"
publish = false

[dependencies]
petgraph = "=0.6.5"
bimap = "=0.6.3"
shlex = "=1.3.0"
textwrap = "0.16"
ansi-diff = "=1.1.0"
ansi-to-tui = "=8.0.1"
anyhow = "=1.0.104"
async-trait = "=0.1.92"
clap = { version = "=4.6.7", features = ["derive"] }
crossterm = { version = "=0.29.0", features = ["event-stream"] }
env_logger = "=0.11.11"
futures = "=0.3.34"
home = "=0.5.12"
ignore = "=0.4.33"
indicatif = "=0.18.6"
log = "=0.4.34"
notify = "*"
notify-debouncer-mini = "*"
package_json_schema = "=0.3.0"
pathsearch = "=0.2.0"
ratatui = "=0.30.2"
reqwest = { version = "=0.13.5", default-features = false, features = ["stream"] }
serde = { version = "=1.0.229", features = ["derive"] }
serde_json = "=1.0.154"
tokio = { version = "=1.54.1", features = ["full"] }
