[package]
name = "alembic_core"
version = "0.1.0"
edition = "2021"
publish = false

[dependencies]
bytemuck = "=1.25.2"
byteorder = "=1.5.0"
glam = "=0.30.10"
half = "=2.7.1"
thiserror = "=2.0.21"
memmap2 = "=0.9.12"
parking_lot = "=0.12.5"
smallvec = "=1.15.2"
