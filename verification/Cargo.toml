[package]
name = "medslice"
version = "0.1.0"
edition = "2021"
publish = false

[dependencies]
dicom = { version = "=0.8.2", features = ["image"] }
nifti = "=0.16.0"
