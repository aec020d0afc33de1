use vstd::prelude::*;
use crate::editor::preview::{lines_view, plain_preview, render_plain, Line};

verus! {

/// Renders markdown for the side-by-side preview of the plain editor: no
/// header, a blank line after each block. Gives the lines and, for each
/// source line, the rendered line it starts at.
pub fn render_with_offsets(content: &str) -> (r: (Vec<Line>, Vec<u16>))
    requires
        content@.len() + 2 <= usize::MAX,
    ensures
        (lines_view(r.0@), r.1@) == plain_preview(content@),
{
    render_plain(content)
}

} // verus!
