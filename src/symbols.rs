//! Facts read from symbol-table listings: function symbols and text-section sizes.

use vstd::prelude::*;
use vstd::string::StringSliceAdditionalSpecFns;
use crate::listing::{bytes_of, line_views};
use crate::numbers::{NumberError, hex_parse, hex_str_to_uint};
use crate::pattern::{LinePattern, PatternError, regex_compiles, regex_group};
use crate::text::{bytes_contain, contains};

verus! {

pub const FUNC_MARKER: &'static str = "FUNC";
pub const WEAK_MARKER: &'static str = "WEAK";

/// A `.text` section header line; group 3 is the section size in hex.
pub const TEXT_SECTION_PATTERN: &'static str = "\\.text.*PROGBITS[\\s]+([\\d]+)[\\s]{1}([\\w]+)[\\s]{1}([\\w]+)";

/// A symbol line that names a function and is not weak.
pub open spec fn is_function_symbol(s: Seq<char>) -> bool {
    contains(bytes_of(s), FUNC_MARKER.spec_bytes()) && !contains(
        bytes_of(s),
        WEAK_MARKER.spec_bytes(),
    )
}

/// Number of function-symbol lines among `lines`.
pub open spec fn function_symbol_count(lines: Seq<Seq<char>>) -> nat
    decreases lines.len(),
{
    if lines.len() == 0 {
        0
    } else {
        function_symbol_count(lines.drop_last()) + if is_function_symbol(lines.last()) {
            1nat
        } else {
            0nat
        }
    }
}

/// Counts the lines that mark a function symbol (`FUNC`), leaving out weak
/// ones (`WEAK`).
pub fn count_function_symbols(lines: &Vec<String>) -> (r: usize)
    ensures
        r == function_symbol_count(line_views(lines@)),
{
    let ghost all = line_views(lines@);
    let mut count: usize = 0;
    let mut i: usize = 0;
    while i < lines.len()
        invariant
            i <= lines@.len(),
            all == line_views(lines@),
            count == function_symbol_count(all.subrange(0, i as int)),
            count <= i,
        decreases lines@.len() - i,
    {
        assert(all.subrange(0, i + 1).drop_last() =~= all.subrange(0, i as int));
        let b = lines[i].as_str().as_bytes();
        if bytes_contain(b, FUNC_MARKER.as_bytes()) && !bytes_contain(b, WEAK_MARKER.as_bytes()) {
            count = count + 1;
        }
        i = i + 1;
    }
    assert(all.subrange(0, lines@.len() as int) =~= all);
    count
}

/// Why the text-section sizes could not be summed.
#[derive(Debug, Clone, Copy, PartialEq, Eq, Structural)]
pub enum SizeError {
    /// The section pattern was not accepted.
    Pattern,
    /// A size field is not a hexadecimal number that fits in 64 bits.
    Number(NumberError),
    /// The sum exceeds `u64::MAX`.
    Overflow,
}

/// The size field of a `.text` section header line, if the line is one.
pub open spec fn section_size_field(s: Seq<char>) -> Option<Seq<char>> {
    regex_group(TEXT_SECTION_PATTERN@, s, 3)
}

/// The sum of the sizes in `fields` (`None` for a line that is no `.text`
/// section header), or the first error.
pub open spec fn size_field_sum(fields: Seq<Option<Seq<char>>>) -> Result<u64, SizeError>
    decreases fields.len(),
{
    if fields.len() == 0 {
        Ok(0)
    } else {
        match size_field_sum(fields.drop_last()) {
            Err(e) => Err(e),
            Ok(t) => match fields.last() {
                None => Ok(t),
                Some(field) => match hex_parse(bytes_of(field)) {
                    Err(e) => Err(SizeError::Number(e)),
                    Ok(v) => if t + v > u64::MAX {
                        Err(SizeError::Overflow)
                    } else {
                        Ok((t + v) as u64)
                    },
                },
            },
        }
    }
}

/// The size field of each line.
pub open spec fn size_fields_of(lines: Seq<Seq<char>>) -> Seq<Option<Seq<char>>> {
    lines.map_values(|s: Seq<char>| section_size_field(s))
}

/// The views of optional strings.
pub open spec fn option_views(v: Seq<Option<String>>) -> Seq<Option<Seq<char>>> {
    v.map_values(
        |o: Option<String>|
            match o {
                Some(t) => Some(t@),
                None => None,
            },
    )
}

proof fn lemma_sum_error_sticks(all: Seq<Option<Seq<char>>>, k: int)
    requires
        0 <= k <= all.len(),
        size_field_sum(all.subrange(0, k)) is Err,
    ensures
        size_field_sum(all) == size_field_sum(all.subrange(0, k)),
    decreases all.len() - k,
{
    if k < all.len() {
        assert(all.subrange(0, k + 1).drop_last() =~= all.subrange(0, k));
        lemma_sum_error_sticks(all, k + 1);
    } else {
        assert(all.subrange(0, k) =~= all);
    }
}

/// Sums hexadecimal size fields; `None` entries are skipped.
pub fn sum_size_fields(fields: &Vec<Option<String>>) -> (r: Result<u64, SizeError>)
    ensures
        r == size_field_sum(option_views(fields@)),
{
    let ghost all = option_views(fields@);
    let mut total: u64 = 0;
    let mut i: usize = 0;
    while i < fields.len()
        invariant
            i <= fields@.len(),
            all == option_views(fields@),
            size_field_sum(all.subrange(0, i as int)) == Ok::<u64, SizeError>(total),
        decreases fields@.len() - i,
    {
        let ghost pre = all.subrange(0, i as int);
        assert(all.subrange(0, i + 1).drop_last() =~= pre);
        match &fields[i] {
            None => {},
            Some(field) => {
                let v = match hex_str_to_uint(field.as_str()) {
                    Ok(v) => v,
                    Err(e) => {
                        proof {
                            lemma_sum_error_sticks(all, i as int + 1);
                        }
                        return Err(SizeError::Number(e));
                    },
                };
                if v > u64::MAX - total {
                    proof {
                        lemma_sum_error_sticks(all, i as int + 1);
                    }
                    return Err(SizeError::Overflow);
                }
                total = total + v;
            },
        }
        i = i + 1;
    }
    assert(all.subrange(0, fields@.len() as int) =~= all);
    Ok(total)
}

/// Sums the sizes of the `.text` sections whose header lines appear in
/// `lines` (the section table of a symbol-table listing).
pub fn text_size_total(lines: &Vec<String>) -> (r: Result<u64, SizeError>)
    ensures
        !regex_compiles(TEXT_SECTION_PATTERN@) ==> r == Err::<u64, SizeError>(SizeError::Pattern),
        regex_compiles(TEXT_SECTION_PATTERN@) ==> r == size_field_sum(
            size_fields_of(line_views(lines@)),
        ),
{
    let pattern = match LinePattern::compile(TEXT_SECTION_PATTERN) {
        Ok(p) => p,
        Err(PatternError::Rejected) => {
            return Err(SizeError::Pattern);
        },
    };
    let mut fields: Vec<Option<String>> = Vec::new();
    let mut i: usize = 0;
    while i < lines.len()
        invariant
            i <= lines@.len(),
            pattern.pattern() == TEXT_SECTION_PATTERN@,
            fields@.len() == i,
            forall|k: int|
                0 <= k < i ==> #[trigger] option_views(fields@)[k] == section_size_field(
                    lines@[k]@,
                ),
        decreases lines@.len() - i,
    {
        let f = pattern.group(lines[i].as_str(), 3);
        let ghost before = fields@;
        fields.push(f);
        proof {
            assert forall|k: int| 0 <= k < i + 1 implies #[trigger] option_views(fields@)[k]
                == section_size_field(lines@[k]@) by {
                if k < i {
                    assert(fields@[k] == before[k]);
                    assert(option_views(before)[k] == section_size_field(lines@[k]@));
                }
            }
        }
        i = i + 1;
    }
    assert(option_views(fields@) =~= size_fields_of(line_views(lines@)));
    sum_size_fields(&fields)
}

} // verus!
