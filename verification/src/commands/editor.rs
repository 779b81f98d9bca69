//! Text edits made by the submodule editor.
use vstd::prelude::*;
use crate::text::{
    chars_of, eq, lines, lines_chars, starts_with, starts_with_chars, trim, trim_chars,
    trim_start, trim_start_chars,
};

verus! {

/// The header of a submodule's section in `.gitmodules`.
pub open spec fn section_header(name: Seq<char>) -> Seq<char> {
    "[submodule \""@ + name + "\"]"@
}

/// The text kept so far and whether the lines are inside the removed section.
pub open spec fn removal_run(ls: Seq<Seq<char>>, header: Seq<char>) -> (Seq<char>, bool)
    decreases ls.len(),
{
    if ls.len() == 0 {
        (Seq::empty(), false)
    } else {
        let st = removal_run(ls.drop_last(), header);
        let l = ls.last();
        if trim(l) == header || starts_with(l, header) {
            (st.0, true)
        } else {
            let skip = st.1 && !starts_with(trim_start(l), "["@);
            if skip {
                (st.0, true)
            } else {
                (st.0 + l + seq!['\n'], false)
            }
        }
    }
}

/// `.gitmodules` text without the section of submodule `name`: its header
/// line and the lines after it up to the next line that starts with `[`;
/// every kept line ends with a newline.
pub open spec fn without_section(content: Seq<char>, name: Seq<char>) -> Seq<char> {
    removal_run(lines(content), section_header(name)).0
}

/// Removes a submodule's section from `.gitmodules` text.
pub fn remove_submodule_section(content: &str, name: &str) -> (r: String)
    ensures
        r@ == without_section(content@, name@),
{
    let mut header = String::from_str("[submodule \"");
    header.append(name);
    header.append("\"]");
    let h = chars_of(header.as_str());
    let open_bracket = chars_of("[");
    let text = chars_of(content);
    let ls = lines_chars(&text);
    let ghost all = ls.deep_view();
    let mut out = String::new();
    let mut skip = false;
    let mut i: usize = 0;
    assert(out@ =~= removal_run(all.take(0), h@).0);
    while i < ls.len()
        invariant
            i <= ls.len(),
            all == ls.deep_view(),
            h@ == section_header(name@),
            open_bracket@ == "["@,
            (out@, skip) == removal_run(all.take(i as int), h@),
        decreases ls.len() - i,
    {
        proof {
            assert(all.take(i + 1).drop_last() =~= all.take(i as int));
            assert(ls@[i as int].deep_view() =~= ls@[i as int]@);
            assert(all.take(i + 1).last() == ls@[i as int]@);
        }
        let t = trim_chars(&ls[i]);
        if eq(&t, &h) || starts_with_chars(&ls[i], &h) {
            skip = true;
        } else {
            let ts = trim_start_chars(&ls[i]);
            if skip && !starts_with_chars(&ts, &open_bracket) {
                skip = true;
            } else {
                crate::text::append_chars(&mut out, &ls[i]);
                crate::text::push_char(&mut out, '\n');
                skip = false;
            }
        }
        i += 1;
    }
    assert(all.take(i as int) =~= all);
    out
}

} // verus!
