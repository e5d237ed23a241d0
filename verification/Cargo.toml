[package]
name = "crypt"
version = "0.1.0"
edition = "2021"
publish = false

[dependencies]
aes-gcm = "0.10"
argon2 = "0.5"
crossbeam-channel = "0.5"
num_cpus = "1"
os_pipe = "1"
rand_core = { version = "0.6", features = ["getrandom"] }
serde = { version = "1", features = ["derive"] }
serde_json = "1"
tar = "0.4"
termios = "0.3"
walkdir = "2"
zeroize = "1"
zstd = "0.13"
