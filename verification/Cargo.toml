[package]
name = "userutils"
version = "0.1.0"
edition = "2021"
publish = false

[dependencies]
argon2rs = "*"
arg_parser = "*"
extra = "*"
liner = "*"
termion = "*"
redox_users = "*"
redox_syscall = "*"
