[package]
name = "webaves"
version = "0.1.0"
edition = "2021"
publish = false

[dependencies]
utf-8 = "=0.7.6"
rustyknife = "=0.2.11"
mx3 = "=1.0.1"
regex = "=1.4.6"
url = "=2.2.2"
rand = "=0.8.8"
flate2 = "=1.1.10"
brotli = "=3.5.0"
zstd = "=0.14.3"
digest = "=0.10.7"
md-5 = "=0.10.6"
sha1 = "=0.10.7"
sha2 = "=0.10.9"
sha3 = "=0.10.9"
blake2 = "=0.10.6"
percent-encoding = "=2.3.2"
whoami = "=1.6.1"
dirs = "=5.0.1"
