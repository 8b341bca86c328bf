[package]
name = "beanwm"
version = "0.1.0"
edition = "2021"
publish = false

[dependencies]
smithay = { version = "0.7", default-features = false, features = ["backend_drm", "backend_gbm", "backend_egl", "backend_libinput", "backend_udev", "backend_session_libseat", "desktop", "renderer_gl", "wayland_frontend"] }
wayland-protocols = { version = "0.32", features = ["server"] }
wayland-server = "0.31"
drm-fourcc = "2"
xkeysym = "0.2"
