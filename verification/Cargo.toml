[package]
name = "lamp"
version = "0.1.0"
edition = "2021"
publish = false

[dependencies]
esp-idf-svc = "0.47"
embedded-svc = "0.26"
smart-leds-trait = "0.2"
ws2812-esp32-rmt-driver = "0.6"
log = "0.4"
anyhow = "1"
