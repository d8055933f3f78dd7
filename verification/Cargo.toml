[package]
name = "region_alloc"
version = "0.1.0"
edition = "2021"
publish = false

[dependencies]
md5 = "0.7"
uuid = "1"
