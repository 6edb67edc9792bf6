[package]
name = "visitations"
version = "0.1.0"
edition = "2021"
publish = false

[dependencies]
typedb-client = "=0.1.2"
tokio = { version = "=1.21.1", features = ["macros", "rt-multi-thread"] }
text_io = "=0.1.13"
# hyper is not used directly, and tokio-stream only to read the answers of an
# insert to their end. Both are held to releases that build with the tokio
# above, which is the one that typedb-client 0.1.2 resolves to.
hyper = "=0.14.20"
tokio-stream = "=0.1.11"
