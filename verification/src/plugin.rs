//! Which files of the plugin directory are loaded as ASI plugins.
use crate::text::chars_of;
use vstd::prelude::*;

verus! {

/// Extension of ASI plugin files.
pub const PLUGIN_EXTENSION: &'static str = ".asi";

/// Whether `s` ends with `suffix`.
pub open spec fn ends_with(s: Seq<char>, suffix: Seq<char>) -> bool {
    suffix.len() <= s.len() && s.subrange(s.len() - suffix.len(), s.len() as int) == suffix
}

/// `s` ends with `suffix` exactly when it is some text followed by `suffix`.
pub proof fn lemma_ends_with_is_suffix(s: Seq<char>, suffix: Seq<char>)
    ensures
        ends_with(s, suffix) <==> exists|prefix: Seq<char>| s == #[trigger] (prefix + suffix),
{
    if ends_with(s, suffix) {
        let prefix = s.subrange(0, s.len() - suffix.len());
        assert(s =~= prefix + suffix);
    }
    if exists|prefix: Seq<char>| s == #[trigger] (prefix + suffix) {
        let prefix = choose|prefix: Seq<char>| s == #[trigger] (prefix + suffix);
        assert(s.subrange(s.len() - suffix.len(), s.len() as int) =~= suffix);
    }
}

/// Plugin files are named `.asi` at the end, and nothing else counts.
pub proof fn lemma_plugin_names()
    ensures
        PLUGIN_EXTENSION@ == seq!['.', 'a', 's', 'i'],
{
    reveal_strlit(".asi");
}

/// Whether a directory entry is loaded as a plugin: it is a file and its
/// name ends with `.asi` (letter case counts).
pub fn is_plugin(is_file: bool, name: &str) -> (load: bool)
    ensures
        load == (is_file && ends_with(name@, PLUGIN_EXTENSION@)),
{
    if !is_file {
        return false;
    }
    let name_chars = chars_of(name);
    let extension = chars_of(PLUGIN_EXTENSION);
    let n = name_chars.len();
    let k = extension.len();
    if k > n {
        return false;
    }
    let mut i: usize = 0;
    while i < k
        invariant
            n == name@.len(),
            k == PLUGIN_EXTENSION@.len(),
            name_chars@ == name@,
            extension@ == PLUGIN_EXTENSION@,
            k <= n,
            i <= k,
            forall|j: int| 0 <= j < i ==> name@[n - k + j] == PLUGIN_EXTENSION@[j],
        decreases k - i,
    {
        if name_chars[n - k + i] != extension[i] {
            assert(name@.subrange(n - k, n as int)[i as int] != PLUGIN_EXTENSION@[i as int]);
            return false;
        }
        i = i + 1;
    }
    assert(name@.subrange(n - k, n as int) =~= PLUGIN_EXTENSION@);
    true
}

} // verus!
