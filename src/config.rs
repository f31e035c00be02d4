//! The issuer's configuration, and reading its list of denominations.

use crate::bignum::{decimal_value, is_decimal};
use vstd::prelude::*;
use vstd::std_specs::iter::IteratorSpec;
use vstd::string::{axiom_spec_iter, next_postcondition};

verus! {

/// Everything the issuer is configured with.
#[derive(Debug, Clone)]
pub struct Config {
    pub server: ServerConfig,
    pub database: DatabaseConfig,
    pub redis: RedisConfig,
    pub institution: InstitutionConfig,
}

/// Where the issuer listens.
#[derive(Debug, Clone)]
pub struct ServerConfig {
    pub host: String,
    pub port: u16,
}

/// The ledger's database.
#[derive(Debug, Clone)]
pub struct DatabaseConfig {
    pub url: String,
    pub max_connections: u32,
}

/// The spent-set's server.
#[derive(Debug, Clone)]
pub struct RedisConfig {
    pub url: String,
}

/// The issuer's identity, token validity and denominations.
#[derive(Debug, Clone)]
pub struct InstitutionConfig {
    pub institution_id: String,
    pub key_id: String,
    pub token_expiry_days: i64,
    pub denominations: Vec<u64>,
}

/// White space as Unicode defines it.
pub open spec fn is_space(c: char) -> bool {
    ||| c == ' '
    ||| ('\t' <= c && c <= '\r')
    ||| c == '\u{85}'
    ||| c == '\u{a0}'
    ||| c == '\u{1680}'
    ||| ('\u{2000}' <= c && c <= '\u{200a}')
    ||| c == '\u{2028}'
    ||| c == '\u{2029}'
    ||| c == '\u{202f}'
    ||| c == '\u{205f}'
    ||| c == '\u{3000}'
}

/// `s` without its leading white space.
pub open spec fn trim_start(s: Seq<char>) -> Seq<char>
    decreases s.len(),
{
    if s.len() > 0 && is_space(s[0]) {
        trim_start(s.drop_first())
    } else {
        s
    }
}

/// `s` without its trailing white space.
pub open spec fn trim_end(s: Seq<char>) -> Seq<char>
    decreases s.len(),
{
    if s.len() > 0 && is_space(s.last()) {
        trim_end(s.drop_last())
    } else {
        s
    }
}

/// The unsigned 64-bit integer that `s` writes: decimal digits with an
/// optional leading `+`, of a value that fits.
pub open spec fn u64_value(s: Seq<char>) -> Option<u64> {
    let digits = if s.len() > 0 && s[0] == '+' {
        s.drop_first()
    } else {
        s
    };
    if is_decimal(digits) && decimal_value(digits) <= u64::MAX {
        Some(decimal_value(digits) as u64)
    } else {
        None
    }
}

/// The pieces of `s` between commas.
pub open spec fn comma_fields(s: Seq<char>) -> Seq<Seq<char>>
    decreases s.len(),
{
    if s.len() == 0 {
        seq![Seq::empty()]
    } else {
        let init = comma_fields(s.drop_last());
        if s.last() == ',' {
            init.push(Seq::empty())
        } else {
            init.update(init.len() - 1, init.last().push(s.last()))
        }
    }
}

/// The values of those fields that, trimmed, write an unsigned integer.
pub open spec fn field_values(fields: Seq<Seq<char>>) -> Seq<u64>
    decreases fields.len(),
{
    if fields.len() == 0 {
        seq![]
    } else {
        let init = field_values(fields.drop_last());
        match u64_value(trim_end(trim_start(fields.last()))) {
            Some(v) => init.push(v),
            None => init,
        }
    }
}

proof fn lemma_comma_fields_nonempty(s: Seq<char>)
    ensures
        comma_fields(s).len() >= 1,
    decreases s.len(),
{
    if s.len() > 0 {
        lemma_comma_fields_nonempty(s.drop_last());
    }
}

fn is_space_char(c: char) -> (r: bool)
    ensures
        r == is_space(c),
{
    c == ' ' || ('\t' <= c && c <= '\r') || c == '\u{85}' || c == '\u{a0}' || c == '\u{1680}' || (
    '\u{2000}' <= c && c <= '\u{200a}') || c == '\u{2028}' || c == '\u{2029}' || c == '\u{202f}'
        || c == '\u{205f}' || c == '\u{3000}'
}

proof fn lemma_trim_start_skip(s: Seq<char>, i: int)
    requires
        0 <= i < s.len(),
        is_space(s[i]),
    ensures
        trim_start(s.subrange(i, s.len() as int)) == trim_start(s.subrange(i + 1, s.len() as int)),
{
    assert(s.subrange(i, s.len() as int).drop_first() =~= s.subrange(i + 1, s.len() as int));
}

proof fn lemma_trim_end_skip(s: Seq<char>, j: int)
    requires
        0 < j <= s.len(),
        is_space(s[j - 1]),
    ensures
        trim_end(s.subrange(0, j)) == trim_end(s.subrange(0, j - 1)),
{
    assert(s.subrange(0, j).drop_last() =~= s.subrange(0, j - 1));
}

/// The value of one field, trimmed, if it writes an unsigned integer.
fn field_value(field: &Vec<char>) -> (r: Option<u64>)
    ensures
        r == u64_value(trim_end(trim_start(field@))),
{
    let len = field.len();
    let mut i: usize = 0;
    proof {
        assert(field@.subrange(0, len as int) =~= field@);
    }
    while i < len && is_space_char(field[i])
        invariant
            len == field@.len(),
            i <= len,
            trim_start(field@) == trim_start(field@.subrange(i as int, len as int)),
        decreases len - i,
    {
        proof {
            lemma_trim_start_skip(field@, i as int);
        }
        i = i + 1;
    }
    let ghost start = field@.subrange(i as int, len as int);
    assert(trim_start(field@) == start);
    let mut j: usize = len;
    proof {
        assert(start.subrange(0, (j - i) as int) =~= start);
    }
    while j > i && is_space_char(field[j - 1])
        invariant
            len == field@.len(),
            i <= j <= len,
            start == field@.subrange(i as int, len as int),
            trim_end(start) == trim_end(start.subrange(0, (j - i) as int)),
        decreases j,
    {
        proof {
            lemma_trim_end_skip(start, (j - i) as int);
            assert(start.subrange(0, (j - i - 1) as int) =~= start.subrange(0, (j - i) as int).drop_last());
        }
        j = j - 1;
    }
    let ghost trimmed = field@.subrange(i as int, j as int);
    proof {
        assert(start.subrange(0, (j - i) as int) =~= trimmed);
        assert(trim_end(start) == trimmed);
    }
    if i < j && field[i] == '+' {
        i = i + 1;
    }
    let ghost digits = field@.subrange(i as int, j as int);
    proof {
        if trimmed.len() > 0 && trimmed[0] == '+' {
            assert(trimmed.drop_first() =~= digits);
        } else {
            assert(trimmed =~= digits);
        }
    }
    let ghost target = u64_value(trim_end(trim_start(field@)));
    assert(target == (if is_decimal(digits) && decimal_value(digits) <= u64::MAX {
        Some(decimal_value(digits) as u64)
    } else {
        None::<u64>
    }));
    if i >= j {
        return None;
    }
    let mut value: u64 = 0;
    let mut k: usize = i;
    while k < j
        invariant
            i <= k <= j,
            j <= len,
            len == field@.len(),
            digits == field@.subrange(i as int, j as int),
            target == u64_value(trim_end(trim_start(field@))),
            target == (if is_decimal(digits) && decimal_value(digits) <= u64::MAX {
                Some(decimal_value(digits) as u64)
            } else {
                None::<u64>
            }),
            forall|t: int| i <= t < k ==> '0' <= #[trigger] field@[t] <= '9',
            value as nat == decimal_value(field@.subrange(i as int, k as int)),
        decreases j - k,
    {
        let c = field[k];
        if !('0' <= c && c <= '9') {
            proof {
                assert(digits[k - i] == c);
            }
            return None;
        }
        proof {
            assert(field@.subrange(i as int, k + 1).drop_last() =~= field@.subrange(i as int, k as int));
        }
        let d = (c as u32 - '0' as u32) as u64;
        match value.checked_mul(10) {
            None => {
                proof {
                    if is_decimal(digits) {
                        lemma_decimal_prefix_bound(digits, (k - i + 1) as int);
                        assert(digits.subrange(0, (k - i + 1) as int) =~= field@.subrange(i as int, k + 1));
                    }
                }
                return None;
            },
            Some(m) => match m.checked_add(d) {
                None => {
                    proof {
                        if is_decimal(digits) {
                            lemma_decimal_prefix_bound(digits, (k - i + 1) as int);
                            assert(digits.subrange(0, (k - i + 1) as int) =~= field@.subrange(i as int, k + 1));
                        }
                    }
                    return None;
                },
                Some(v) => {
                    value = v;
                },
            },
        }
        k = k + 1;
    }
    proof {
        assert(field@.subrange(i as int, k as int) =~= digits);
    }
    Some(value)
}

/// A number written with more digits is at least as large as its leading digits.
proof fn lemma_decimal_prefix_bound(s: Seq<char>, k: int)
    requires
        0 <= k <= s.len(),
        forall|t: int| 0 <= t < s.len() ==> '0' <= #[trigger] s[t] <= '9',
    ensures
        decimal_value(s.subrange(0, k)) <= decimal_value(s),
    decreases s.len() - k,
{
    if k < s.len() {
        lemma_decimal_prefix_bound(s, k + 1);
        assert(s.subrange(0, k + 1).drop_last() =~= s.subrange(0, k));
    } else {
        assert(s.subrange(0, k) =~= s);
    }
}

/// The denominations that a comma-separated list writes: each piece is
/// trimmed of white space, and pieces that do not write an unsigned 64-bit
/// integer are skipped.
pub fn parse_denominations(s: &str) -> (r: Vec<u64>)
    ensures
        r@ == field_values(comma_fields(s@)),
{
    broadcast use axiom_spec_iter, next_postcondition;

    let mut chars = s.chars();
    let ghost mut done: Seq<char> = Seq::empty();
    let ghost mut fields: Seq<Seq<char>> = Seq::empty();
    let mut out: Vec<u64> = Vec::new();
    let mut field: Vec<char> = Vec::new();
    loop
        invariant
            s@ == done + chars.remaining(),
            comma_fields(done) == fields.push(field@),
            out@ == field_values(fields),
            done.len() <= s@.len(),
        ensures
            s@ == done,
            comma_fields(done) == fields.push(field@),
            out@ == field_values(fields),
        decreases s@.len() - done.len(),
    {
        match chars.next() {
            None => {
                assert(s@ =~= done);
                break;
            },
            Some(c) => {
                proof {
                    assert(done.push(c).drop_last() =~= done);
                    lemma_comma_fields_nonempty(done);
                }
                if c == ',' {
                    let v = field_value(&field);
                    proof {
                        assert(fields.push(field@).drop_last() =~= fields);
                    }
                    if let Some(x) = v {
                        out.push(x);
                    }
                    proof {
                        fields = fields.push(field@);
                    }
                    field = Vec::new();
                } else {
                    field.push(c);
                    proof {
                        assert(comma_fields(done.push(c)) =~= fields.push(field@));
                    }
                }
                proof {
                    done = done.push(c);
                    assert(s@ =~= done + chars.remaining());
                }
            },
        }
    }
    let v = field_value(&field);
    proof {
        assert(fields.push(field@).drop_last() =~= fields);
    }
    if let Some(x) = v {
        out.push(x);
    }
    out
}

} // verus!
