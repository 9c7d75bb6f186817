//! The computational side of the filesystem command surface: the entry
//! records a directory listing is made of, markdown detection by extension,
//! and the request an empty-file creation hands to the filesystem layer.
//! The filesystem calls themselves (reading directories, writing files) are
//! I/O and live outside this crate; they hand plain values in and take plain
//! values back.
//!
//! Case-insensitivity here is full Unicode case folding, done by std's
//! `str::to_lowercase` behind a trusted wrapper.  Its value would take pages
//! to state, so the contracts call the folded form of a name `lower_of` and
//! define markdown detection and the listing order over that name.

use vstd::multiset::Multiset;
use vstd::prelude::*;

verus! {

broadcast use vstd::seq_lib::group_to_multiset_ensures;

/// One entry of a directory listing.
#[derive(Debug)]
pub struct FileItem {
    pub name: String,
    pub path: String,
    pub is_directory: bool,
    pub is_markdown: bool,
}

/// The value of std's `str::to_lowercase` on a name: full Unicode case
/// folding, a function of the characters alone.  Its value would take pages
/// to state, so the contracts speak of it only by this name.
pub uninterp spec fn lower_of(s: Seq<char>) -> Seq<char>;

/// Relies on std's `str::to_lowercase`: full Unicode lowercasing, depending
/// on the characters of `s` alone (no locale).
#[verifier::external_body]
fn to_lowercase(s: &str) -> (r: String)
    ensures
        r@ == lower_of(s@),
{
    s.to_lowercase()
}

/// `s` ends in `suffix`.
pub open spec fn ends_with(s: Seq<char>, suffix: Seq<char>) -> bool {
    s.len() >= suffix.len() && s.skip(s.len() - suffix.len()) == suffix
}

/// A name denotes a markdown file: ignoring case, it ends in `.md`,
/// `.markdown` or `.mdown`.
pub open spec fn is_markdown_name(s: Seq<char>) -> bool {
    ||| ends_with(lower_of(s), ".md"@)
    ||| ends_with(lower_of(s), ".markdown"@)
    ||| ends_with(lower_of(s), ".mdown"@)
}

/// Whether `s` ends in `suffix`, character for character.
fn ends_with_exact(s: &str, suffix: &str) -> (r: bool)
    ensures
        r == ends_with(s@, suffix@),
{
    let n = s.unicode_len();
    let m = suffix.unicode_len();
    if n < m {
        return false;
    }
    let mut i: usize = 0;
    while i < m
        invariant
            m <= n,
            n == s@.len(),
            m == suffix@.len(),
            i <= m,
            forall|k: int| 0 <= k < i ==> s@[n - m + k] == suffix@[k],
        decreases m - i,
    {
        let c = s.get_char(n - m + i);
        if c != suffix.get_char(i) {
            proof {
                assert(s@.skip(n - m)[i as int] != suffix@[i as int]);
            }
            return false;
        }
        i += 1;
    }
    proof {
        assert(s@.skip(n - m) =~= suffix@);
    }
    true
}

/// Whether a file name denotes a markdown file, going by its extension,
/// case-insensitively.
pub fn is_markdown_file(filename: &str) -> (r: bool)
    ensures
        r == is_markdown_name(filename@),
{
    let lower = to_lowercase(filename);
    ends_with_exact(lower.as_str(), ".md") || ends_with_exact(lower.as_str(), ".markdown")
        || ends_with_exact(lower.as_str(), ".mdown")
}

/// Builds the listing entry for one directory member: markdown detection
/// applies to files only, directories are never marked as markdown.
pub fn make_file_item(name: String, path: String, is_directory: bool) -> (item: FileItem)
    ensures
        item.name@ == name@,
        item.path@ == path@,
        item.is_directory == is_directory,
        item.is_markdown == (!is_directory && is_markdown_name(name@)),
{
    let is_markdown = !is_directory && is_markdown_file(name.as_str());
    FileItem { name, path, is_directory, is_markdown }
}

/// Lexicographic order on names, by code points.  Applied to folded names
/// this is the order of Rust's own string comparison on them, since UTF-8
/// byte order agrees with code-point order.
pub open spec fn lex_le(a: Seq<char>, b: Seq<char>) -> bool
    decreases a.len(),
{
    if a.len() == 0 {
        true
    } else if b.len() == 0 {
        false
    } else if (a[0] as u32) < (b[0] as u32) {
        true
    } else if (b[0] as u32) < (a[0] as u32) {
        false
    } else {
        lex_le(a.drop_first(), b.drop_first())
    }
}

/// The listing order: directories first, then case-insensitive alphabetical
/// by name.
pub open spec fn item_le(a: FileItem, b: FileItem) -> bool {
    if a.is_directory != b.is_directory {
        a.is_directory
    } else {
        lex_le(lower_of(a.name@), lower_of(b.name@))
    }
}

/// The listing order is total.
pub proof fn lemma_item_le_total(a: FileItem, b: FileItem)
    ensures
        item_le(a, b) || item_le(b, a),
{
    lemma_lex_le_total(lower_of(a.name@), lower_of(b.name@));
}

/// The listing order is transitive.
pub proof fn lemma_item_le_trans(a: FileItem, b: FileItem, c: FileItem)
    requires
        item_le(a, b),
        item_le(b, c),
    ensures
        item_le(a, c),
{
    if a.is_directory == b.is_directory && b.is_directory == c.is_directory {
        lemma_lex_le_trans(lower_of(a.name@), lower_of(b.name@), lower_of(c.name@));
    }
}

proof fn lemma_lex_le_total(a: Seq<char>, b: Seq<char>)
    ensures
        lex_le(a, b) || lex_le(b, a),
    decreases a.len(),
{
    if a.len() > 0 && b.len() > 0 && (a[0] as u32) == (b[0] as u32) {
        lemma_lex_le_total(a.drop_first(), b.drop_first());
    }
}

proof fn lemma_lex_le_trans(a: Seq<char>, b: Seq<char>, c: Seq<char>)
    requires
        lex_le(a, b),
        lex_le(b, c),
    ensures
        lex_le(a, c),
    decreases a.len(),
{
    if a.len() > 0 && b.len() > 0 && c.len() > 0 && (a[0] as u32) == (b[0] as u32) && (b[0] as u32)
        == (c[0] as u32) {
        lemma_lex_le_trans(a.drop_first(), b.drop_first(), c.drop_first());
    }
}

/// A run of pairwise equal heads does not decide the comparison: it goes by
/// whatever follows.
proof fn lemma_lex_le_skip(x: Seq<char>, y: Seq<char>, i: int)
    requires
        0 <= i <= x.len(),
        i <= y.len(),
        forall|k: int| 0 <= k < i ==> (#[trigger] x[k] as u32) == (y[k] as u32),
    ensures
        lex_le(x, y) == lex_le(x.skip(i), y.skip(i)),
    decreases i,
{
    if i == 0 {
        assert(x.skip(0) =~= x);
        assert(y.skip(0) =~= y);
    } else {
        assert((x[0] as u32) == (y[0] as u32));
        lemma_lex_le_skip(x.drop_first(), y.drop_first(), i - 1);
        assert(x.drop_first().skip(i - 1) =~= x.skip(i));
        assert(y.drop_first().skip(i - 1) =~= y.skip(i));
    }
}

/// Whether `a` comes no later than `b` in code-point order.
fn lex_le_exec(a: &str, b: &str) -> (r: bool)
    ensures
        r == lex_le(a@, b@),
{
    let n = a.unicode_len();
    let m = b.unicode_len();
    let mut i: usize = 0;
    while i < n && i < m
        invariant
            n == a@.len(),
            m == b@.len(),
            i <= n,
            i <= m,
            forall|k: int| 0 <= k < i ==> (#[trigger] a@[k] as u32) == (b@[k] as u32),
        decreases n - i,
    {
        let ca: u32 = a.get_char(i) as u32;
        let cb: u32 = b.get_char(i) as u32;
        if ca < cb {
            proof {
                lemma_lex_le_skip(a@, b@, i as int);
                assert(a@.skip(i as int)[0] == a@[i as int]);
                assert(b@.skip(i as int)[0] == b@[i as int]);
            }
            return true;
        }
        if cb < ca {
            proof {
                lemma_lex_le_skip(a@, b@, i as int);
                assert(a@.skip(i as int)[0] == a@[i as int]);
                assert(b@.skip(i as int)[0] == b@[i as int]);
            }
            return false;
        }
        i += 1;
    }
    proof {
        lemma_lex_le_skip(a@, b@, i as int);
        if i == n {
            assert(a@.skip(i as int).len() == 0);
        } else {
            assert(b@.skip(i as int).len() == 0);
            assert(a@.skip(i as int).len() > 0);
        }
    }
    i == n
}

/// Whether listing entry `a` comes no later than `b` in the listing order:
/// both names are folded through `to_lowercase`, then compared.
fn item_le_exec(a: &FileItem, b: &FileItem) -> (r: bool)
    ensures
        r == item_le(*a, *b),
{
    if a.is_directory != b.is_directory {
        a.is_directory
    } else {
        let la = to_lowercase(a.name.as_str());
        let lb = to_lowercase(b.name.as_str());
        lex_le_exec(la.as_str(), lb.as_str())
    }
}

/// Sorts a directory listing: directories first, then case-insensitive
/// alphabetical by name.  The result is a rearrangement of the input —
/// nothing is gained, lost or altered.
pub fn sort_file_items(items: Vec<FileItem>) -> (sorted: Vec<FileItem>)
    ensures
        sorted@.len() == items@.len(),
        sorted@.to_multiset() == items@.to_multiset(),
        forall|i: int, j: int|
            0 <= i <= j < sorted@.len() ==> item_le(#[trigger] sorted@[i], #[trigger] sorted@[j]),
{
    let mut rest = items;
    let mut sorted: Vec<FileItem> = Vec::new();
    proof {
        assert(sorted@.to_multiset().add(rest@.to_multiset()) =~= items@.to_multiset());
    }
    while rest.len() > 0
        invariant
            sorted@.to_multiset().add(rest@.to_multiset()) == items@.to_multiset(),
            sorted@.len() + rest@.len() == items@.len(),
            forall|i: int, j: int|
                0 <= i <= j < sorted@.len() ==> item_le(
                    #[trigger] sorted@[i],
                    #[trigger] sorted@[j],
                ),
            forall|i: int, k: int|
                0 <= i < sorted@.len() && 0 <= k < rest@.len() ==> item_le(
                    #[trigger] sorted@[i],
                    #[trigger] rest@[k],
                ),
        decreases rest@.len(),
    {
        let mut best: usize = 0;
        let mut k: usize = 1;
        proof {
            lemma_item_le_total(rest@[0], rest@[0]);
        }
        while k < rest.len()
            invariant
                rest@.len() > 0,
                best < k,
                k <= rest@.len(),
                forall|t: int| 0 <= t < k ==> item_le(rest@[best as int], #[trigger] rest@[t]),
            decreases rest@.len() - k,
        {
            if !item_le_exec(&rest[best], &rest[k]) {
                proof {
                    lemma_item_le_total(rest@[best as int], rest@[k as int]);
                    assert forall|t: int| 0 <= t < k + 1 implies item_le(
                        rest@[k as int],
                        #[trigger] rest@[t],
                    ) by {
                        if t < k {
                            lemma_item_le_trans(rest@[k as int], rest@[best as int], rest@[t]);
                        } else {
                            lemma_item_le_total(rest@[k as int], rest@[k as int]);
                        }
                    }
                }
                best = k;
            }
            k += 1;
        }
        let ghost prev_rest = rest@;
        let ghost prev_sorted = sorted@;
        let x = rest.remove(best);
        sorted.push(x);
        proof {
            prev_rest.remove_ensures(best as int);
            assert(prev_rest.contains(prev_rest[best as int]));
            assert(sorted@.to_multiset() =~= prev_sorted.to_multiset().insert(x));
            assert(rest@.to_multiset() =~= prev_rest.to_multiset().remove(x));
            assert(sorted@.to_multiset().add(rest@.to_multiset()) =~= prev_sorted.to_multiset().add(
                prev_rest.to_multiset(),
            ));
            assert forall|i: int, k2: int|
                0 <= i < sorted@.len() && 0 <= k2 < rest@.len() implies item_le(
                #[trigger] sorted@[i],
                #[trigger] rest@[k2],
            ) by {
                if k2 < best {
                    assert(rest@[k2] == prev_rest[k2]);
                } else {
                    assert(rest@[k2] == prev_rest[k2 + 1]);
                }
                if i < sorted@.len() - 1 {
                    assert(sorted@[i] == prev_sorted[i]);
                } else {
                    assert(sorted@[i] == x);
                }
            }
        }
    }
    proof {
        assert(rest@.to_multiset() =~= Multiset::<FileItem>::empty());
        assert(sorted@.to_multiset().add(Multiset::<FileItem>::empty()) =~= sorted@.to_multiset());
    }
    sorted
}

/// A write the filesystem layer is asked to perform: put `content` at
/// `path`, creating missing parent directories.
pub struct WriteRequest {
    pub path: String,
    pub content: String,
}

/// Builds the write request that creates a new file: same path, empty
/// content.
pub fn create_file(path: &str) -> (r: WriteRequest)
    ensures
        r.path@ == path@,
        r.content@ == Seq::<char>::empty(),
{
    WriteRequest { path: path.to_owned(), content: String::new() }
}

} // verus!
