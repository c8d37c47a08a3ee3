[package]
name = "codevar_wsocket"
version = "0.1.0"
edition = "2021"
publish = false

[dependencies]
bsize = "*"
getrandom = "0.2"
sha1 = "0.10"
libc = "0.2"
log = "0.4"
