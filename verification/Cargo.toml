[package]
name = "branchless"
version = "0.1.0"
edition = "2021"
publish = false

[dependencies]
anyhow = "1"
console = "*"
cursive = { version = "*", default-features = false, features = ["crossterm-backend"] }
fn-error-context = "*"
git2 = { version = "*", default-features = false }
log = "0.4"
pyo3 = "*"
