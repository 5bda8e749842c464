//! A static-site content compiler: math protection and rendering inside
//! markdown, internal link rewriting, and a depth-aware navigation model.

pub mod text;
pub mod paths;
pub mod math;
pub mod embed;
pub mod placeholder;
pub mod slugs;
pub mod links;
pub mod site;
pub mod order;
pub mod nav;
pub mod navbar;
pub mod frontmatter;
pub mod pipeline;
pub mod page;
