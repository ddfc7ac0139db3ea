[package]
name = "nt_sysdump"
version = "0.1.0"
edition = "2021"
publish = false

[dependencies]
phf = "0.11"
ntapi = "0.4"
windows-sys = { version = "0.59", features = ["Win32_Foundation", "Win32_System_Diagnostics_Debug", "Win32_System_SystemServices", "Win32_Storage_FileSystem", "Win32_System_SystemInformation", "Win32_System_Kernel"] }
