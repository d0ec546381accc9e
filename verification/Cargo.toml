[package]
name = "zbus"
version = "0.1.0"
edition = "2021"
publish = false

[dependencies]
serde_json = "=1.0.154"
distance = "=0.4.0"
fuzzy-matcher = "=0.3.7"
voca_rs = "=1.15.2"
sudo = "=0.6.0"
rhai = { version = "=1.27.0", features = ["serde"] }
log = "=0.4.35"
curl = "=0.4.51"
duct_sh = "=1.0.0"
easy_reader = "=0.5.2"
fsio = "=0.4.1"
logwatcher = "=0.1.1"
inari = { version = "=1.1.0", default-features = false }
iset = "=0.3.3"
statrs = "=0.16.1"
rand = "=0.8.8"
ta = "=0.5.0"
decorum = "=0.3.1"
maver = "=0.1.0"
lexical-core = "=0.8.5"
proctitle = "=0.1.1"
lazy_static = "=1.5.1"
binary_rw = "=4.1.0"
rhai-fs = "=0.1.5"
rhai-rand = "=0.2.0"
rhai-url = "=0.0.6"
is-url = "=1.0.4"
zenoh = { version = "=0.11.0", default-features = false }
