[package]
name = "justfetch"
version = "0.1.0"
edition = "2021"
publish = false

[dependencies]
byte-unit = "=4.0.19"
colorful = "=0.3.2"
libc = "=0.2.190"
lxinfo = "=0.1.2"
