[package]
name = "leptos-declarative"
version = "0.2.1"
edition = "2021"
publish = false

[dependencies]
leptos = "0.6"
leptos_dom = "0.6"
