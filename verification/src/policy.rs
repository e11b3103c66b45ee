//! Removal rules for container entries.
//!
//! An entry name is a slash-separated relative path, held as raw bytes.
//! A name is removable when its leading path segments match one of the
//! configured top-level directory names, or when its file extension (the
//! bytes after the final dot of the final segment) matches one of the
//! configured extensions. Both checks are case-sensitive.

use vstd::prelude::*;

verus! {

/// Byte value of `/`, the separator inside entry names.
pub const SLASH: u8 = 47;

/// Byte value of `.`, which introduces a file extension.
pub const DOT: u8 = 46;

/// The configured removal rules: directory names whose whole tree is
/// removed, and file extensions that are removed wherever they appear.
pub struct RemovalPolicy {
    pub prefixes: Vec<Vec<u8>>,
    pub extensions: Vec<Vec<u8>>,
}

impl RemovalPolicy {
    /// The configured directory names, as sequences of name bytes.
    pub open spec fn pres(&self) -> Seq<Seq<u8>> {
        self.prefixes.deep_view()
    }

    /// The configured extensions, as sequences of name bytes.
    pub open spec fn exts(&self) -> Seq<Seq<u8>> {
        self.extensions.deep_view()
    }

    /// The rules the tool ships with: the `images`, `sound` and `video`
    /// trees go, and so does every `.iwi` or `.mp3` entry. The byte values
    /// spell those five words out.
    pub fn default_rules() -> (p: RemovalPolicy)
        ensures
            p.pres() == seq![
                seq![105u8, 109u8, 97u8, 103u8, 101u8, 115u8],
                seq![115u8, 111u8, 117u8, 110u8, 100u8],
                seq![118u8, 105u8, 100u8, 101u8, 111u8],
            ],
            p.exts() == seq![seq![105u8, 119u8, 105u8], seq![109u8, 112u8, 51u8]],
    {
        let prefixes: Vec<Vec<u8>> = vec![
            vec![105u8, 109u8, 97u8, 103u8, 101u8, 115u8],
            vec![115u8, 111u8, 117u8, 110u8, 100u8],
            vec![118u8, 105u8, 100u8, 101u8, 111u8],
        ];
        let extensions: Vec<Vec<u8>> = vec![vec![105u8, 119u8, 105u8], vec![109u8, 112u8, 51u8]];
        let p = RemovalPolicy { prefixes, extensions };
        proof {
            assert(p.pres() =~~= seq![
                seq![105u8, 109u8, 97u8, 103u8, 101u8, 115u8],
                seq![115u8, 111u8, 117u8, 110u8, 100u8],
                seq![118u8, 105u8, 100u8, 101u8, 111u8],
            ]);
            assert(p.exts() =~~= seq![seq![105u8, 119u8, 105u8], seq![109u8, 112u8, 51u8]]);
        }
        p
    }
}

/// `name` lies under the directory `prefix`: it is the directory name
/// itself, or starts with it followed by a slash.
pub open spec fn prefix_matches(name: Seq<u8>, prefix: Seq<u8>) -> bool {
    ||| name == prefix
    ||| (prefix.len() < name.len() && name.take(prefix.len() as int) == prefix
        && name[prefix.len() as int] == SLASH)
}

/// Position `p` is where the extension of `name` starts: the byte before it
/// is the final dot, and no dot or slash follows.
pub open spec fn ext_starts_at(name: Seq<u8>, p: int) -> bool {
    0 < p <= name.len() && name[p - 1] == DOT && (forall|j: int|
        p <= j < name.len() ==> name[j] != DOT && name[j] != SLASH)
}

/// The extension of `name` (the bytes after the final dot of the final
/// slash-separated segment) is exactly `ext`.
pub open spec fn ext_matches(name: Seq<u8>, ext: Seq<u8>) -> bool {
    exists|p: int| #[trigger] ext_starts_at(name, p) && name.subrange(p, name.len() as int) == ext
}

/// An entry name falls under the removal rules: one of the configured
/// directories contains it, or one of the configured extensions is its own.
pub open spec fn removable(name: Seq<u8>, pres: Seq<Seq<u8>>, exts: Seq<Seq<u8>>) -> bool {
    ||| (exists|k: int| 0 <= k < pres.len() && prefix_matches(name, #[trigger] pres[k]))
    ||| (exists|k: int| 0 <= k < exts.len() && ext_matches(name, #[trigger] exts[k]))
}

/// Two byte slices hold the same bytes.
pub fn bytes_eq(a: &[u8], b: &[u8]) -> (r: bool)
    ensures
        r == (a@ == b@),
{
    if a.len() != b.len() {
        return false;
    }
    let mut i: usize = 0;
    while i < a.len()
        invariant
            i <= a@.len(),
            forall|j: int| 0 <= j < i ==> a@[j] == b@[j],
        decreases a@.len() - i,
    {
        if a[i] != b[i] {
            return false;
        }
        i += 1;
    }
    proof {
        assert(a@ =~= b@);
    }
    true
}

/// Whether `name` lies under the directory `prefix`.
pub fn prefix_match_one(name: &[u8], prefix: &[u8]) -> (r: bool)
    ensures
        r == prefix_matches(name@, prefix@),
{
    if prefix.len() > name.len() {
        false
    } else if prefix.len() == name.len() {
        bytes_eq(name, prefix)
    } else {
        let head = &name[0..prefix.len()];
        bytes_eq(head, prefix) && name[prefix.len()] == SLASH
    }
}

/// Where the extension of `name` starts, if the final segment has one.
pub fn find_ext_start(name: &[u8]) -> (r: Option<usize>)
    ensures
        match r {
            Some(p) => ext_starts_at(name@, p as int),
            None => forall|p: int| !ext_starts_at(name@, p),
        },
{
    let mut j: usize = name.len();
    while j > 0
        invariant
            j <= name@.len(),
            forall|t: int| j <= t < name@.len() ==> name@[t] != DOT && name@[t] != SLASH,
        decreases j,
    {
        let c = name[j - 1];
        if c == DOT {
            return Some(j);
        }
        if c == SLASH {
            proof {
                assert forall|p: int| !ext_starts_at(name@, p) by {
                    if ext_starts_at(name@, p) {
                        if p <= j - 1 {
                            assert(name@[j - 1] != SLASH);
                        } else {
                            assert(name@[p - 1] != DOT);
                        }
                    }
                }
            }
            return None;
        }
        j -= 1;
    }
    proof {
        assert forall|p: int| !ext_starts_at(name@, p) by {
            if ext_starts_at(name@, p) {
                assert(name@[p - 1] != DOT);
            }
        }
    }
    None
}

/// No two positions can both start the extension of one name.
proof fn lemma_ext_start_unique(name: Seq<u8>, p: int, q: int)
    requires
        ext_starts_at(name, p),
        ext_starts_at(name, q),
    ensures
        p == q,
{
    if p < q {
        assert(name[q - 1] != DOT);
    }
    if q < p {
        assert(name[p - 1] != DOT);
    }
}

/// Whether the extension of `name` is exactly `ext`.
pub fn ext_match_one(name: &[u8], ext: &[u8]) -> (r: bool)
    ensures
        r == ext_matches(name@, ext@),
{
    match find_ext_start(name) {
        None => false,
        Some(p) => {
            let tail = &name[p..name.len()];
            let r = bytes_eq(tail, ext);
            proof {
                if r {
                    assert(ext_starts_at(name@, p as int) && name@.subrange(
                        p as int,
                        name@.len() as int,
                    ) == ext@);
                } else {
                    if ext_matches(name@, ext@) {
                        let q = choose|q: int|
                            #[trigger] ext_starts_at(name@, q) && name@.subrange(
                                q,
                                name@.len() as int,
                            ) == ext@;
                        lemma_ext_start_unique(name@, p as int, q);
                    }
                }
            }
            r
        },
    }
}

/// Whether an entry with this name falls under the removal rules.
pub fn should_remove_file(name: &[u8], policy: &RemovalPolicy) -> (r: bool)
    ensures
        r == removable(name@, policy.pres(), policy.exts()),
{
    let mut k: usize = 0;
    while k < policy.prefixes.len()
        invariant
            k <= policy.prefixes.len(),
            forall|t: int| 0 <= t < k ==> !prefix_matches(name@, policy.pres()[t]),
        decreases policy.prefixes.len() - k,
    {
        proof {
            assert(policy.pres()[k as int] =~= policy.prefixes@[k as int]@);
        }
        if prefix_match_one(name, policy.prefixes[k].as_slice()) {
            return true;
        }
        k += 1;
    }
    let mut k: usize = 0;
    while k < policy.extensions.len()
        invariant
            k <= policy.extensions.len(),
            forall|t: int| 0 <= t < k ==> !ext_matches(name@, policy.exts()[t]),
        decreases policy.extensions.len() - k,
    {
        proof {
            assert(policy.exts()[k as int] =~= policy.extensions@[k as int]@);
        }
        if ext_match_one(name, policy.extensions[k].as_slice()) {
            return true;
        }
        k += 1;
    }
    false
}

} // verus!
