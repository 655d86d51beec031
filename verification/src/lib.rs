//! Streaming serialization of HTML elements into escaped text fragments.

pub mod body_element;
pub mod document;
pub mod element;
pub mod encode;
pub mod escape;
pub mod fragment;
pub mod html_element;
pub mod origin;
pub mod serializer;
pub mod step;

pub use body_element::body;
pub use body_element::Body;
pub use body_element::BodyAttribute;
pub use body_element::BodyChild;
pub use body_element::BodySafeOutput;
pub use html_element::html;
pub use html_element::html_main;
pub use html_element::Html;
pub use html_element::HtmlAttribute;
pub use html_element::HtmlChild;
pub use html_element::HtmlSafeOutput;
