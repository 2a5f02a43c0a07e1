[package]
name = "rasterburn"
version = "0.1.0"
edition = "2021"

[dependencies]
gdal = "*"
geo = "*"
geo-types = "*"
geojson = "*"
linya = "*"
num_cpus = "*"
structopt = "*"
