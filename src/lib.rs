//! The code-generation core of a compiler from JSX element trees to reactive
//! code. It keeps the working form of one subtree (`structs`), hoists and
//! deduplicates static templates, compiles dynamic attributes into batched and
//! change-gated effects and lowers a subtree into live-DOM construction code
//! (`dom`), or into server-rendered markup with expression holes (`ssr`). The
//! generated program is described by the syntax tree in `ast`.

pub mod ast;
pub mod dom;
pub mod ssr;
pub mod structs;
pub mod text;
