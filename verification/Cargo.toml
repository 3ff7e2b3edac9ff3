[package]
name = "ground_station"
version = "0.1.0"
edition = "2021"
publish = false

[dependencies]
heapless = "=0.8.0"
thingbuf = { version = "=0.1.6", default-features = false, features = ["static"] }
postcard = { version = "=1.1.3", default-features = false }
serde = { version = "=1.0.229", default-features = false }
sequential-storage = "=4.0.3"
embassy-futures = "=0.1.2"
micromath = "=2.1.0"
fugit = "=0.3.9"
f4-w25q = { version = "=0.1.1", features = ["embedded-storage"] }
stm32f4xx-hal = { version = "=0.22.1", features = ["stm32f412"] }
