[package]
name = "fse_best_jobs"
version = "0.1.0"
edition = "2021"
publish = false

[dependencies]
csv = "1"
geoutils = "0.5"
quick-xml = "0.22"
reqwest = { version = "0.11", default-features = false, features = ["blocking", "rustls-tls"] }
structopt = "0.3"
