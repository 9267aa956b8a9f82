//! File extension filters.
use vstd::prelude::*;
use crate::order::texts;
use crate::text::chars_of;

verus! {

/// An extension as a filter takes it: with a leading `.`, added when missing.
pub open spec fn dotted_ext(e: Seq<char>) -> Seq<char> {
    if e.len() > 0 && e[0] == '.' {
        e
    } else {
        seq!['.'] + e
    }
}

/// Gives every extension a leading `.` (`rs` and `.rs` both become `.rs`).
pub fn normalize_file_exts(exts: &[String]) -> (out: Vec<String>)
    ensures
        texts(out@) == exts@.map_values(|e: String| dotted_ext(e@)),
{
    let mut out: Vec<String> = Vec::new();
    let n = exts.len();
    for i in 0..n
        invariant
            n == exts@.len(),
            texts(out@) == exts@.take(i as int).map_values(|e: String| dotted_ext(e@)),
    {
        let ext = &exts[i];
        let chars = chars_of(ext.as_str());
        let normalized = if chars.len() > 0 && chars[0] == '.' {
            ext.clone()
        } else {
            let mut dotted = ".".to_owned();
            dotted.append(ext.as_str());
            proof {
                reveal_strlit(".");
            }
            assert(dotted@ =~= seq!['.'] + ext@);
            dotted
        };
        assert(normalized@ == dotted_ext(exts@[i as int]@));
        let ghost before = texts(out@);
        out.push(normalized);
        assert(texts(out@) =~= before.push(dotted_ext(exts@[i as int]@)));
        assert(texts(out@) =~= exts@.take(i + 1).map_values(|e: String| dotted_ext(e@)));
    }
    assert(exts@.take(n as int) =~= exts@);
    out
}

/// A normalised extension starts with `.`, and normalising it again changes nothing.
pub proof fn lemma_dotted_ext_idempotent(e: Seq<char>)
    ensures
        dotted_ext(e).len() > 0,
        dotted_ext(e)[0] == '.',
        dotted_ext(dotted_ext(e)) == dotted_ext(e),
{
}

} // verus!
