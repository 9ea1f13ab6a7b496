[package]
name = "statement_store"
version = "0.1.0"
edition = "2021"
publish = false

[dependencies]
log = "=0.4.34"
parity-db = "=0.4.13"
parity-scale-codec = "=3.7.5"
parking_lot = "=0.12.5"
sp-api = "=34.0.0"
sp-blockchain = "=37.0.1"
sp-core = "=34.0.0"
sp-runtime = "=39.0.5"
sp-statement-store = "=18.0.0"
