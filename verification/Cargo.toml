[package]
name = "sonic"
version = "0.1.0"
edition = "2021"
publish = false

[dependencies]
twox-hash = "=2.1.5"
serde_json = "=1.0.154"
hashbrown = "=0.17.1"
whatlang = "=0.18.0"
regex = "=1.13.1"
radix = "=0.6.0"
serde = { version = "=1.0.229", features = ["derive"] }
unicode-segmentation = "=1.13.3"
unicode-normalization = "=0.1.26"
caseless = "=0.2.2"
fst = "=0.3.5"
fst-levenshtein = "=0.3.0"
indexmap = "2"
linked_hash_set = "0.1"
