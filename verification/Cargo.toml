[package]
name = "starry_usb"
version = "0.1.0"
edition = "2021"
publish = false

[dependencies]
axerrno = "0.2"
axfs-ng-vfs = "0.1"
axio = "*"
axpoll = "0.1"
crab-usb = "0.6"
dma-api = "0.7"
mbarrier = "0.1"
spin = "0.10"
spin_on = "0.1"
usb-if = "0.5"
