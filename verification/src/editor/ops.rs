use vstd::prelude::*;
use crate::text::{chars_of, push_str, string_of};

verus! {

/// The port the local preview server listens on.
pub const SERVE_PORT: u16 = 8000;

/// What a deploy produced before it is pushed: the diff to show and the
/// directory that holds the deploy checkout.
#[derive(Debug, Clone)]
pub struct DeployPreview {
    pub diff: String,
    pub deploy_dir: String,
}

/// The final component of a path written as text, as `Path::file_name`
/// gives it (`None` where the path ends in `..` or is a root).
pub uninterp spec fn path_file_name(path: Seq<char>) -> Option<Seq<char>>;

/// Calls `std::path::Path::file_name` on `path`. The result is named; a
/// component, when there is one, is not empty and holds no `/`.
#[verifier::external_body]
fn final_component(path: &str) -> (r: Option<String>)
    ensures
        match r {
            Some(n) => path_file_name(path@) == Some(n@) && n@.len() > 0 && !n@.contains('/'),
            None => path_file_name(path@) is None,
        },
{
    std::path::Path::new(path).file_name().map(|n| n.to_string_lossy().into_owned())
}

/// The dist output directory for a blog directory:
/// `blogs/my-site` gives `dist/my-site`.
pub fn dist_dir_for_blog(blog_dir: &str) -> (r: String)
    requires
        path_file_name(blog_dir@) is Some,
    ensures
        r@ == "dist/"@ + path_file_name(blog_dir@).unwrap(),
{
    let name = final_component(blog_dir);
    match name {
        Some(n) => {
            let mut out = chars_of("dist/");
            push_str(&mut out, n.as_str());
            string_of(&out)
        },
        None => {
            proof {
                assert(false);
            }
            String::new()
        },
    }
}

/// The dist directory for a blog directory, or `None` where the path has
/// no final component to name it by.
pub fn dist_dir_checked(blog_dir: &str) -> (r: Option<String>)
    ensures
        match r {
            Some(d) => path_file_name(blog_dir@) is Some && d@ == "dist/"@ + path_file_name(
                blog_dir@,
            ).unwrap(),
            None => path_file_name(blog_dir@) is None,
        },
{
    match final_component(blog_dir) {
        Some(_) => Some(dist_dir_for_blog(blog_dir)),
        None => None,
    }
}

} // verus!
