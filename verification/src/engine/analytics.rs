use vstd::prelude::*;
use crate::text::{push_str, string_of};

verus! {

/// The script tag loading Google Analytics for `id` two seconds after the page.
pub open spec fn ga_script(id: Seq<char>) -> Seq<char> {
    "<script>window.addEventListener('load',function(){setTimeout(function(){var s=document.createElement('script');s.src='https://www.googletagmanager.com/gtag/js?id="@
        + id
        + "';s.async=true;document.head.appendChild(s);s.onload=function(){window.dataLayer=window.dataLayer||[];function g(){dataLayer.push(arguments)}g('js',new Date());g('config','"@
        + id + "')}},2000)})</script>"@
}

/// A lazily loaded Google Analytics script tag; empty when `analytics_id` is empty.
pub fn ga_script_tag(analytics_id: &str) -> (r: String)
    ensures
        analytics_id@.len() == 0 ==> r@.len() == 0,
        analytics_id@.len() > 0 ==> r@ == ga_script(analytics_id@),
{
    if analytics_id.is_empty() {
        return String::new();
    }
    let mut out: Vec<char> = Vec::new();
    push_str(&mut out, "<script>window.addEventListener('load',function(){setTimeout(function(){var s=document.createElement('script');s.src='https://www.googletagmanager.com/gtag/js?id=");
    push_str(&mut out, analytics_id);
    push_str(&mut out, "';s.async=true;document.head.appendChild(s);s.onload=function(){window.dataLayer=window.dataLayer||[];function g(){dataLayer.push(arguments)}g('js',new Date());g('config','");
    push_str(&mut out, analytics_id);
    push_str(&mut out, "')}},2000)})</script>");
    string_of(&out)
}

} // verus!
