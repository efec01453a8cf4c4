[package]
name = "curl_inject_opt"
version = "0.1.0"
edition = "2021"
publish = false

[dependencies]
libc = "0.2"
curl-sys = "0.4"
clap = "4"
clap_complete = "4"
