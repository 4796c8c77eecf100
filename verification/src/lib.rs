pub mod atlas;
pub mod image;
pub mod ordered;
pub mod protocol;
pub mod render;
pub mod scene;
pub mod text;
pub mod vertex;
pub mod window;
