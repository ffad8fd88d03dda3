//! Offline encyclopedia reader: a title index, a block-wise archive reader and
//! a markup-to-HTML renderer.

pub mod article;
pub mod index;
pub mod markup;
pub mod pages;
pub mod render;
pub mod resource;
pub mod route;
pub mod template;
pub mod text;
