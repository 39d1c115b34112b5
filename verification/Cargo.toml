[package]
name = "ts_enum"
version = "0.1.0"
edition = "2021"
publish = false

[dependencies]
oxc_allocator = "=0.125.0"
oxc_ast = "=0.125.0"
oxc_ast_visit = "=0.125.0"
oxc_data_structures = { version = "=0.125.0", features = ["stack"] }
oxc_semantic = "=0.125.0"
oxc_span = "=0.125.0"
oxc_syntax = "=0.125.0"
oxc_traverse = "=0.125.0"

[dev-dependencies]
oxc_parser = "=0.125.0"
