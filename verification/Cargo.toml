[package]
name = "text_analyzer"
version = "0.1.0"
edition = "2021"
publish = false

[dependencies]
fst = "0.4"
whatlang = "0.10"
jieba-rs = "0.6"
deunicode = "1"
character_converter = "*"
unicode-segmentation = "1"
