[package]
name = "atdf2cpp"
version = "0.1.0"
edition = "2021"
publish = false

[dependencies]
avr-mcu = "*"
ident_case = "*"
