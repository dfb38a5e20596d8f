[package]
name = "proof_serve"
version = "0.1.0"
edition = "2021"
publish = false

[dependencies]
tiny-keccak = { version = "=2.0.2", features = ["keccak"] }
postcard = { version = "=1.1.3", features = ["alloc"] }
serde = { version = "=1.0.229", features = ["derive"] }
rand = "=0.10.3"
bytes = "=1.12.1"
chrono = "=0.4.45"
log = "=0.4.34"
env_logger = "=0.11.11"
tokio = { version = "=1.53.2", features = ["macros", "rt-multi-thread"] }
warp = { version = "=0.4.3", features = ["server"] }
reqwest = { version = "=0.13.5", default-features = false, features = ["blocking"] }
p3-air = "=0.8.0"
p3-baby-bear = "=0.8.0"
p3-challenger = "=0.8.0"
p3-commit = "=0.8.0"
p3-dft = "=0.8.0"
p3-field = "=0.8.0"
p3-fri = "=0.8.0"
p3-keccak = "=0.8.0"
p3-keccak-air = "=0.8.0"
p3-matrix = "=0.8.0"
p3-merkle-tree = "=0.8.0"
p3-poseidon2 = "=0.8.0"
p3-symmetric = "=0.8.0"
p3-uni-stark = "=0.8.0"
