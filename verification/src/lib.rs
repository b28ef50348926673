//! State and decision logic of a small Wayland desktop shell (dock, status
//! bar, application launcher) and of its user-interface toolkit, with
//! contracts proved by Verus.
pub mod text;
pub mod date_picker;
pub mod color;
pub mod select;
pub mod style;
pub mod input;
pub mod icons;
pub mod windows;
pub mod apps;
pub mod launcher;
pub mod header;
pub mod dock;
pub mod reactive;
pub mod focus;
pub mod form;
pub mod pointer;
pub mod svg_path;
pub mod capture;
pub mod hit;
pub mod paint;
pub mod propagation;
