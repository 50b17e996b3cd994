[package]
name = "forensic_vfs"
version = "0.1.0"
edition = "2021"
publish = false

[dependencies]
forensicnomicon-core = "*"
forensicnomicon = "*"
state-history-forensic = "*"
ewf = "*"
ntfs-core = "*"
thiserror = "*"

[dev-dependencies]
tempfile = "*"
