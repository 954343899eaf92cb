[package]
name = "brainfuck_redox_scheme"
version = "0.1.0"
edition = "2021"
publish = false

[dependencies]
libc = "=0.2.191"
# redox-scheme 0.9.1 is built on redox_syscall 0.7; later releases of libredox
# bring redox_syscall 0.9 beside it, and the two do not build together
libredox = "=0.1.12"
redox_syscall = "=0.7.5"
redox-scheme = "=0.9.1"
