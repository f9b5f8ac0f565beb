//! Mutation sheets: the seeds of the variants, the files they are kept in, and
//! which files are left over from an earlier sheet.

use vstd::prelude::*;
use crate::text;

verus! {

/// The seed of variant `i`: the sheet's seed and the variant's number, so that
/// one seed reproduces a whole sheet.
pub fn variant_seed(seed: u64, i: u32) -> (s: u64)
    ensures
        s == (seed + i) % 0x1_0000_0000_0000_0000,
{
    seed.wrapping_add(i as u64)
}

/// Variants of one sheet have different seeds.
pub proof fn variants_have_different_seeds(seed: int, i: int, j: int)
    requires
        0 <= seed < 0x1_0000_0000_0000_0000,
        0 <= i < j <= u32::MAX,
    ensures
        (seed + i) % 0x1_0000_0000_0000_0000 != (seed + j) % 0x1_0000_0000_0000_0000,
{
}

/// The file that variant `index` is kept in.
pub open spec fn variant_path_text(stem: Seq<char>, index: nat) -> Seq<char> {
    stem + ".mut"@ + text::decimal(index) + ".toml"@
}

/// The file that variant `index` of the sheet at `stem` is kept in.
pub fn variant_path(stem: &str, index: usize) -> (s: String)
    ensures
        s@ == variant_path_text(stem@, index as nat),
{
    let mut s = String::new();
    s.append(stem);
    s.append(".mut");
    text::push_decimal(&mut s, index as u128);
    s.append(".toml");
    assert(s@ =~= variant_path_text(stem@, index as nat));
    s
}

/// Whether a file name is that of some variant of the sheet `name`: the name,
/// `.mut`, digits and `.toml`.
pub open spec fn is_variant_name(file: Seq<char>, name: Seq<char>) -> bool {
    let prefix = name + ".mut"@;
    let suffix = ".toml"@;
    &&& file.len() >= prefix.len() + suffix.len()
    &&& file.take(prefix.len() as int) == prefix
    &&& file.skip(file.len() - suffix.len()) == suffix
    &&& text::all_digits(file.subrange(prefix.len() as int, file.len() - suffix.len()))
}

/// Whether the file is a variant left over from a sheet of that name.
pub fn is_stale_variant(file: &str, name: &str) -> (b: bool)
    ensures
        b == is_variant_name(file@, name@),
{
    let mut p = String::new();
    p.append(name);
    p.append(".mut");
    assert(p@ =~= name@ + ".mut"@);
    let f = text::chars_of(file);
    let prefix = text::chars_of(p.as_str());
    let suffix = text::chars_of(".toml");
    let n: usize = f.len();
    let a: usize = prefix.len();
    let z: usize = suffix.len();
    if n < a || n - a < z {
        return false;
    }
    assert(f@.subrange(0, a as int) =~= f@.take(a as int));
    assert(f@.subrange(n - z, n as int) =~= f@.skip(n - z));
    if !text::range_is(&f, 0, a, &prefix) {
        return false;
    }
    if !text::range_is(&f, n - z, n, &suffix) {
        return false;
    }
    if a == n - z {
        assert(f@.subrange(a as int, n - z).len() == 0);
        return false;
    }
    let mut i: usize = a;
    let ghost mid = f@.subrange(a as int, n - z);
    while i < n - z
        invariant
            a <= i <= n - z,
            n == f.len(),
            z <= n,
            f@ == file@,
            a == (name@ + ".mut"@).len(),
            z == ".toml"@.len(),
            mid == f@.subrange(a as int, n - z),
            forall|k: int| 0 <= k < i - a ==> text::is_digit(#[trigger] mid[k]),
        decreases n - z - i,
    {
        let c = f[i];
        assert(mid[i - a] == c);
        if !('0' <= c && c <= '9') {
            assert(!text::is_digit(mid[i - a]));
            return false;
        }
        i += 1;
    }
    true
}

/// A number in decimal is all digits.
pub proof fn decimals_are_digits(n: nat)
    ensures
        text::all_digits(text::decimal(n)),
    decreases n,
{
    if n >= 10 {
        decimals_are_digits(n / 10);
        assert forall|i: int| 0 <= i < text::decimal(n).len() implies text::is_digit(
            #[trigger] text::decimal(n)[i],
        ) by {
            if i < text::decimal(n / 10).len() {
                assert(text::decimal(n)[i] == text::decimal(n / 10)[i]);
            }
        }
    }
}

/// Every file that a sheet writes is one that the next sheet of that name
/// clears away.
pub proof fn written_variants_are_cleared(name: Seq<char>, index: nat)
    ensures
        is_variant_name(variant_path_text(name, index), name),
{
    let file = variant_path_text(name, index);
    let prefix = name + ".mut"@;
    let suffix = ".toml"@;
    decimals_are_digits(index);
    assert(file.take(prefix.len() as int) =~= prefix);
    assert(file.skip(file.len() - suffix.len()) =~= suffix);
    assert(file.subrange(prefix.len() as int, file.len() - suffix.len()) =~= text::decimal(index));
}

/// What is printed of a variant's tile.
pub open spec fn variant_text(row: nat, col: nat, label: Seq<char>, path: Seq<char>) -> Seq<char> {
    "tile [row "@ + text::decimal(row) + ", col "@ + text::decimal(col) + "]: "@ + label + " -> "@
        + path
}

/// The line of a variant's tile, with the file that keeps it.
pub fn variant_line(row: u32, col: u32, label: &str, path: &str) -> (s: String)
    ensures
        s@ == variant_text(row as nat, col as nat, label@, path@),
{
    let mut s = String::new();
    s.append("tile [row ");
    text::push_decimal(&mut s, row as u128);
    s.append(", col ");
    text::push_decimal(&mut s, col as u128);
    s.append("]: ");
    s.append(label);
    s.append(" -> ");
    s.append(path);
    assert(s@ =~= variant_text(row as nat, col as nat, label@, path@));
    s
}

/// What a tile of the sheet is labelled: the first tile is the scene itself.
pub fn variant_caption(index: usize, label: &str) -> (s: String)
    ensures
        s@ == (if index == 0 {
            "ORIGINAL"@
        } else {
            label@
        }),
{
    if index == 0 {
        "ORIGINAL".to_owned()
    } else {
        label.to_owned()
    }
}

/// A variant of a sheet is a file that is named for the sheet, with a number
/// between `.mut` and `.toml`, and no other.
pub proof fn a_variant_is_named_for_its_sheet(file: Seq<char>, name: Seq<char>)
    ensures
        is_variant_name(file, name) <==> exists|digits: Seq<char>|
            #![trigger text::all_digits(digits)]
            text::all_digits(digits) && file == name + ".mut"@ + digits + ".toml"@,
{
    reveal_strlit(".mut");
    reveal_strlit(".toml");
    let prefix = name + ".mut"@;
    if is_variant_name(file, name) {
        let digits = file.subrange(prefix.len() as int, file.len() - 5);
        assert(text::all_digits(digits));
        let built = prefix + digits + ".toml"@;
        assert(file =~= built) by {
            assert forall|k: int| 0 <= k < file.len() implies file[k] == built[k] by {
                if k < prefix.len() {
                    assert(file.take(prefix.len() as int)[k] == file[k]);
                } else if k >= file.len() - 5 {
                    assert(file.skip(file.len() - 5)[k - (file.len() - 5)] == file[k]);
                }
            }
        }
    }
    if exists|digits: Seq<char>|
        #![trigger text::all_digits(digits)]
        text::all_digits(digits) && file == name + ".mut"@ + digits + ".toml"@ {
        let digits = choose|digits: Seq<char>|
            #![trigger text::all_digits(digits)]
            text::all_digits(digits) && file == name + ".mut"@ + digits + ".toml"@;
        assert(file.take(prefix.len() as int) =~= prefix);
        assert(file.skip(file.len() - 5) =~= ".toml"@);
        assert(file.subrange(prefix.len() as int, file.len() - 5) =~= digits);
    }
}

} // verus!
