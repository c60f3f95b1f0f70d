[package]
name = "errno_msg"
version = "0.1.0"
edition = "2021"
publish = false

[dependencies]
errno = "*"
widestring = "*"
libc = "*"
iconv-sys = "*"
