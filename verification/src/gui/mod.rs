//! What the window does: where it stands, what it shows, and how its pixels
//! are made.

pub mod blur;
pub mod bubble;
pub mod canvas;
pub mod draw_laws;
pub mod fade;
pub mod fit;
pub mod flow;
pub mod flow_laws;
pub mod icon;
pub mod layout_laws;
pub mod menu;
pub mod paint_laws;
pub mod place;
pub mod roam;
pub mod roam_laws;
pub mod settings;
pub mod shapes;
pub mod show;
pub mod show_laws;
