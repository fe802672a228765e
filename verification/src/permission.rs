//! Authorization scope as an orthogonal self/other bitset: five actions
//! (use, status, create, delete, update), each split into a `Self` and an
//! `Other` scope bit. The set serializes to the flag-name form
//! `"USE_SELF | STATUS_OTHER"` and back, round-trip exact.

use vstd::prelude::*;
use vstd::string::StrSliceExecFns;
use crate::error::AuthError;
use crate::scan::{
    split_at_first, trim, trim_spaces, str_eq, find_char, lemma_split_none, lemma_split_some,
    lemma_split_at_index, lemma_split_of_concat, lemma_ltrim_noop, lemma_rtrim_noop,
    lemma_rtrim_all_spaces, lemma_trim_padded,
};

verus! {

/// Capability to call inference endpoints at all.
pub const USE_SELF: u64 = 0x001;
/// Reserved: exercising the service on another client's behalf.
pub const USE_OTHER: u64 = 0x002;
/// Reading one's own client record.
pub const STATUS_SELF: u64 = 0x004;
/// Reading another client's record.
pub const STATUS_OTHER: u64 = 0x008;
/// Creating new clients.
pub const CREATE_SELF: u64 = 0x010;
/// Reserved: creating clients on another client's behalf.
pub const CREATE_OTHER: u64 = 0x020;
/// Deleting one's own client record.
pub const DELETE_SELF: u64 = 0x040;
/// Deleting another client's record.
pub const DELETE_OTHER: u64 = 0x080;
/// Updating one's own client record.
pub const UPDATE_SELF: u64 = 0x100;
/// Updating another client's record.
pub const UPDATE_OTHER: u64 = 0x200;
/// Every known capability bit; anything outside is corrupt data.
pub const ALL_PERMISSION_BITS: u64 = 0x3FF;

/// The mask of the capability bit with index `i`, in the fixed serialization
/// order.
pub open spec fn flag_mask(i: int) -> u64 {
    if i == 0 {
        USE_SELF
    } else if i == 1 {
        USE_OTHER
    } else if i == 2 {
        STATUS_SELF
    } else if i == 3 {
        STATUS_OTHER
    } else if i == 4 {
        CREATE_SELF
    } else if i == 5 {
        CREATE_OTHER
    } else if i == 6 {
        DELETE_SELF
    } else if i == 7 {
        DELETE_OTHER
    } else if i == 8 {
        UPDATE_SELF
    } else if i == 9 {
        UPDATE_OTHER
    } else {
        0
    }
}

/// The flag name of the capability bit with index `i`.
pub open spec fn flag_name(i: int) -> Seq<char> {
    if i == 0 {
        seq!['U', 'S', 'E', '_', 'S', 'E', 'L', 'F']
    } else if i == 1 {
        seq!['U', 'S', 'E', '_', 'O', 'T', 'H', 'E', 'R']
    } else if i == 2 {
        seq!['S', 'T', 'A', 'T', 'U', 'S', '_', 'S', 'E', 'L', 'F']
    } else if i == 3 {
        seq!['S', 'T', 'A', 'T', 'U', 'S', '_', 'O', 'T', 'H', 'E', 'R']
    } else if i == 4 {
        seq!['C', 'R', 'E', 'A', 'T', 'E', '_', 'S', 'E', 'L', 'F']
    } else if i == 5 {
        seq!['C', 'R', 'E', 'A', 'T', 'E', '_', 'O', 'T', 'H', 'E', 'R']
    } else if i == 6 {
        seq!['D', 'E', 'L', 'E', 'T', 'E', '_', 'S', 'E', 'L', 'F']
    } else if i == 7 {
        seq!['D', 'E', 'L', 'E', 'T', 'E', '_', 'O', 'T', 'H', 'E', 'R']
    } else if i == 8 {
        seq!['U', 'P', 'D', 'A', 'T', 'E', '_', 'S', 'E', 'L', 'F']
    } else if i == 9 {
        seq!['U', 'P', 'D', 'A', 'T', 'E', '_', 'O', 'T', 'H', 'E', 'R']
    } else {
        Seq::empty()
    }
}

/// The separator written between flag names.
pub open spec fn flag_sep() -> Seq<char> {
    seq![' ', '|', ' ']
}

/// Containment of one bitset in another: every required bit is present.
pub open spec fn spec_contains(bits: u64, required: u64) -> bool {
    bits & required == required
}

/// A validity predicate: only the ten named bits may be set.
pub open spec fn valid_bits(bits: u64) -> bool {
    bits & ALL_PERMISSION_BITS == bits
}

/// A set of capability bits. The one unit of authorization scope a client
/// holds; every constructor keeps the set inside the known vocabulary.
#[derive(Clone, Copy, Debug, PartialEq, Eq, Structural)]
pub struct Permission {
    bits: u64,
}

impl View for Permission {
    type V = u64;

    closed spec fn view(&self) -> u64 {
        self.bits
    }
}

impl Permission {
    /// Every reachable `Permission` value holds only known bits: validity is
    /// a type invariant, not just a habit of the constructors.
    #[verifier::type_invariant]
    pub closed spec fn inv(&self) -> bool {
        valid_bits(self.bits)
    }
}

/// What the type invariant means to a caller: the bits are all known ones.
pub proof fn lemma_permission_valid(p: Permission)
    requires
        p.inv(),
    ensures
        valid_bits(p@),
{
}

/// The names of the set bits with index at least `i`, in ascending order.
pub open spec fn names_of_bits(bits: u64, i: int) -> Seq<Seq<char>>
    decreases 10 - i,
{
    if i < 0 || i >= 10 {
        Seq::empty()
    } else if bits & flag_mask(i) != 0 {
        seq![flag_name(i)] + names_of_bits(bits, i + 1)
    } else {
        names_of_bits(bits, i + 1)
    }
}

/// Names joined by `" | "`.
pub open spec fn join_flags(names: Seq<Seq<char>>) -> Seq<char>
    decreases names.len(),
{
    if names.len() == 0 {
        Seq::empty()
    } else if names.len() == 1 {
        names[0]
    } else {
        names[0] + flag_sep() + join_flags(names.drop_first())
    }
}

/// The flag-name serialization of a bitset: the names of its set bits in
/// ascending bit order, joined by `" | "`; the empty set serializes to the
/// empty string.
pub open spec fn perm_to_string(bits: u64) -> Seq<char> {
    join_flags(names_of_bits(bits, 0))
}

/// The bit index a (trimmed) token names, if any.
pub open spec fn bit_of_name(tok: Seq<char>) -> Option<int> {
    if tok == flag_name(0) {
        Some(0)
    } else if tok == flag_name(1) {
        Some(1)
    } else if tok == flag_name(2) {
        Some(2)
    } else if tok == flag_name(3) {
        Some(3)
    } else if tok == flag_name(4) {
        Some(4)
    } else if tok == flag_name(5) {
        Some(5)
    } else if tok == flag_name(6) {
        Some(6)
    } else if tok == flag_name(7) {
        Some(7)
    } else if tok == flag_name(8) {
        Some(8)
    } else if tok == flag_name(9) {
        Some(9)
    } else {
        None
    }
}

/// `s` cut at every `'|'`, in order; a string without `'|'` is one token.
pub open spec fn tokenize(s: Seq<char>) -> Seq<Seq<char>>
    decreases s.len(),
    via tokenize_decreases
{
    match split_at_first('|', s) {
        None => seq![s],
        Some(p) => seq![p.0] + tokenize(p.1),
    }
}

#[via_fn]
proof fn tokenize_decreases(s: Seq<char>) {
    match split_at_first('|', s) {
        Some(p) => lemma_split_some('|', s, p.0, p.1),
        None => {},
    }
}

/// The bitset a token list denotes: each token, trimmed of spaces, must be a
/// known flag name; the result is the union of the named bits.
pub open spec fn parse_tokens(toks: Seq<Seq<char>>) -> Option<u64>
    decreases toks.len(),
{
    if toks.len() == 0 {
        Some(0)
    } else {
        match bit_of_name(trim(toks[0])) {
            None => None,
            Some(b) => match parse_tokens(toks.drop_first()) {
                None => None,
                Some(rest) => Some(rest | flag_mask(b)),
            },
        }
    }
}

/// The bitset a flag string denotes: a blank string is the empty set;
/// otherwise every `'|'`-separated token must name a known flag. Unknown
/// names fail the whole parse — never a silent grant.
pub open spec fn perm_from_string(s: Seq<char>) -> Option<u64> {
    if trim(s).len() == 0 {
        Some(0)
    } else {
        parse_tokens(tokenize(s))
    }
}

impl Permission {
    /// The empty set: no capability at all.
    pub fn empty() -> (p: Permission)
        ensures
            p@ == 0,
            valid_bits(p@),
    {
        proof {
            assert(0u64 & 0x3FFu64 == 0u64) by (bit_vector);
        }
        Permission { bits: 0 }
    }

    /// The raw 64-bit encoding, as persisted.
    pub fn bits(&self) -> (r: u64)
        ensures
            r == self@,
    {
        self.bits
    }

    /// Decodes a persisted bitset; bits outside the known vocabulary are
    /// rejected (the caller reports `CorruptPermissionData`).
    pub fn from_bits(bits: u64) -> (r: Option<Permission>)
        ensures
            match r {
                Some(p) => valid_bits(bits) && p@ == bits,
                None => !valid_bits(bits),
            },
    {
        if bits & ALL_PERMISSION_BITS == bits {
            Some(Permission { bits })
        } else {
            None
        }
    }

    /// True iff every bit set in `required` is also set in `self`.
    pub fn contains(&self, required: &Permission) -> (r: bool)
        ensures
            r == spec_contains(self@, required@),
    {
        self.bits & required.bits == required.bits
    }

    /// Decodes a bitset read back from persistence, failing closed: any
    /// unknown bit makes the whole record `CorruptPermissionData`, never a
    /// silently narrowed grant.
    pub fn from_stored_bits(bits: u64) -> (r: Result<Permission, AuthError>)
        ensures
            match r {
                Ok(p) => valid_bits(bits) && p@ == bits,
                Err(e) => !valid_bits(bits) && e == AuthError::CorruptPermissionData,
            },
    {
        match Permission::from_bits(bits) {
            Some(p) => Ok(p),
            None => Err(AuthError::CorruptPermissionData),
        }
    }

    /// `contains` against a raw mask, for the fixed capability constants.
    pub fn contains_bits(&self, required: u64) -> (r: bool)
        ensures
            r == spec_contains(self@, required),
    {
        self.bits & required == required
    }

    /// The union of two sets.
    pub fn union(self, other: Permission) -> (p: Permission)
        ensures
            p@ == self@ | other@,
    {
        proof {
            use_type_invariant(&self);
            use_type_invariant(&other);
            let a = self.bits;
            let b = other.bits;
            assert((a & 0x3FFu64 == a && b & 0x3FFu64 == b) ==> ((a | b) & 0x3FFu64 == (a
                | b))) by (bit_vector);
        }
        Permission { bits: self.bits | other.bits }
    }
}

/// The flag name of bit `i`, as a string slice.
fn flag_str(i: usize) -> (r: &'static str)
    requires
        i < 10,
    ensures
        r@ == flag_name(i as int),
{
    if i == 0 {
        let s = "USE_SELF";
        proof {
            reveal_strlit("USE_SELF");
            assert(s@ =~= flag_name(0));
        }
        s
    } else if i == 1 {
        let s = "USE_OTHER";
        proof {
            reveal_strlit("USE_OTHER");
            assert(s@ =~= flag_name(1));
        }
        s
    } else if i == 2 {
        let s = "STATUS_SELF";
        proof {
            reveal_strlit("STATUS_SELF");
            assert(s@ =~= flag_name(2));
        }
        s
    } else if i == 3 {
        let s = "STATUS_OTHER";
        proof {
            reveal_strlit("STATUS_OTHER");
            assert(s@ =~= flag_name(3));
        }
        s
    } else if i == 4 {
        let s = "CREATE_SELF";
        proof {
            reveal_strlit("CREATE_SELF");
            assert(s@ =~= flag_name(4));
        }
        s
    } else if i == 5 {
        let s = "CREATE_OTHER";
        proof {
            reveal_strlit("CREATE_OTHER");
            assert(s@ =~= flag_name(5));
        }
        s
    } else if i == 6 {
        let s = "DELETE_SELF";
        proof {
            reveal_strlit("DELETE_SELF");
            assert(s@ =~= flag_name(6));
        }
        s
    } else if i == 7 {
        let s = "DELETE_OTHER";
        proof {
            reveal_strlit("DELETE_OTHER");
            assert(s@ =~= flag_name(7));
        }
        s
    } else if i == 8 {
        let s = "UPDATE_SELF";
        proof {
            reveal_strlit("UPDATE_SELF");
            assert(s@ =~= flag_name(8));
        }
        s
    } else {
        let s = "UPDATE_OTHER";
        proof {
            reveal_strlit("UPDATE_OTHER");
            assert(s@ =~= flag_name(9));
        }
        s
    }
}

/// The mask of bit `i`, as a value.
fn flag_mask_at(i: usize) -> (m: u64)
    requires
        i < 10,
    ensures
        m == flag_mask(i as int),
{
    if i == 0 {
        USE_SELF
    } else if i == 1 {
        USE_OTHER
    } else if i == 2 {
        STATUS_SELF
    } else if i == 3 {
        STATUS_OTHER
    } else if i == 4 {
        CREATE_SELF
    } else if i == 5 {
        CREATE_OTHER
    } else if i == 6 {
        DELETE_SELF
    } else if i == 7 {
        DELETE_OTHER
    } else if i == 8 {
        UPDATE_SELF
    } else {
        UPDATE_OTHER
    }
}

/// Finds which flag a trimmed token names, scanning the names in order.
fn lookup_flag(tok: &str) -> (r: Option<usize>)
    ensures
        match r {
            Some(i) => i < 10 && bit_of_name(tok@) == Some(i as int),
            None => bit_of_name(tok@) is None,
        },
{
    let mut i: usize = 0;
    while i < 10
        invariant
            0 <= i <= 10,
            forall|j: int| 0 <= j < i ==> tok@ != flag_name(j),
        decreases 10 - i,
    {
        if str_eq(tok, flag_str(i)) {
            return Some(i);
        }
        i = i + 1;
    }
    None
}

/// The string the serialization loop still owes, given what it has already
/// written.
spec fn join_cont(prefix: Seq<char>, first: bool, names: Seq<Seq<char>>) -> Seq<char> {
    if first {
        join_flags(names)
    } else if names.len() == 0 {
        prefix
    } else {
        prefix + flag_sep() + join_flags(names)
    }
}

impl Permission {
    /// Serializes the set to its flag-name form, e.g.
    /// `"USE_SELF | STATUS_OTHER"`; the empty set becomes the empty string.
    pub fn to_string(&self) -> (r: String)
        ensures
            r@ == perm_to_string(self@),
    {
        let mut out = String::new();
        let mut first: bool = true;
        let mut i: usize = 0;
        proof {
            assert(join_cont(out@, true, names_of_bits(self@, 0)) == perm_to_string(self@));
        }
        while i < 10
            invariant
                0 <= i <= 10,
                first ==> out@ == Seq::<char>::empty(),
                perm_to_string(self@) == join_cont(out@, first, names_of_bits(self@, i as int)),
            decreases 10 - i,
        {
            let ghost pre = out@;
            let ghost names = names_of_bits(self@, i as int);
            if self.bits & flag_mask_at(i) != 0 {
                proof {
                    assert(names == seq![flag_name(i as int)] + names_of_bits(
                        self@,
                        i as int + 1,
                    ));
                }
                if !first {
                    out.append(" | ");
                    proof {
                        reveal_strlit(" | ");
                        assert(" | "@ =~= flag_sep());
                    }
                }
                out.append(flag_str(i));
                first = false;
                proof {
                    let rest = names_of_bits(self@, i as int + 1);
                    assert(names.drop_first() =~= rest);
                    if rest.len() == 0 {
                        assert(join_flags(names) == flag_name(i as int));
                    } else {
                        assert(join_flags(names) == flag_name(i as int) + flag_sep()
                            + join_flags(rest));
                    }
                    assert(join_cont(pre, true, names) == join_flags(names));
                    assert(out@ == pre + flag_sep() + flag_name(i as int) || out@ == pre
                        + flag_name(i as int) || (pre.len() == 0 && out@ == flag_name(i as int)));
                    assert((pre + flag_sep() + flag_name(i as int)) + flag_sep() + join_flags(rest)
                        =~= pre + flag_sep() + (flag_name(i as int) + flag_sep() + join_flags(
                        rest,
                    )));
                    assert((pre + flag_name(i as int)) + flag_sep() + join_flags(rest) =~= pre + (
                    flag_name(i as int) + flag_sep() + join_flags(rest)));
                }
            }
            i = i + 1;
        }
        out
    }

    /// Parses the flag-name form back into a set: tokens are separated by
    /// `'|'` and may be padded with spaces; a blank string is the empty set;
    /// any unknown token fails the parse.
    pub fn from_string(s: &str) -> (r: Option<Permission>)
        ensures
            match r {
                Some(p) => perm_from_string(s@) == Some(p@) && valid_bits(p@),
                None => perm_from_string(s@) is None,
            },
    {
        let whole = trim_spaces(s);
        if whole.unicode_len() == 0 {
            return Some(Permission::empty());
        }
        let mut rem: &str = s;
        let mut acc: u64 = 0;
        proof {
            assert(0u64 & 0x3FFu64 == 0u64) by (bit_vector);
            let pt = parse_tokens(tokenize(s@));
            if pt is Some {
                let v = pt.unwrap();
                assert(0u64 | v == v) by (bit_vector);
            }
        }
        loop
            invariant
                valid_bits(acc),
                perm_from_string(s@) == match parse_tokens(tokenize(rem@)) {
                    Some(v) => Some(acc | v),
                    None => None::<u64>,
                },
            decreases rem@.len(),
        {
            let n = rem.unicode_len();
            match find_char(rem, '|') {
                Some(idx) => {
                    let tok = rem.substring_char(0, idx);
                    let rest = rem.substring_char(idx + 1, n);
                    proof {
                        lemma_split_at_index('|', rem@, idx as int);
                        assert(tokenize(rem@) == seq![tok@] + tokenize(rest@));
                        assert((seq![tok@] + tokenize(rest@)).drop_first() =~= tokenize(rest@));
                        assert((seq![tok@] + tokenize(rest@))[0] == tok@);
                    }
                    let trimmed = trim_spaces(tok);
                    match lookup_flag(trimmed) {
                        Some(b) => {
                            let m = flag_mask_at(b);
                            proof {
                                lemma_flag_mask_valid(b as int);
                                let m2 = m;
                                let acc2 = acc;
                                assert((acc2 & 0x3FFu64 == acc2 && m2 & 0x3FFu64 == m2) ==> ((
                                acc2 | m2) & 0x3FFu64 == (acc2 | m2))) by (bit_vector);
                                let pt = parse_tokens(tokenize(rest@));
                                if pt is Some {
                                    let v = pt.unwrap();
                                    assert(acc2 | (v | m2) == (acc2 | m2) | v) by (bit_vector);
                                }
                            }
                            acc = acc | m;
                            rem = rest;
                        },
                        None => {
                            return None;
                        },
                    }
                },
                None => {
                    proof {
                        lemma_split_none('|', rem@);
                        assert(tokenize(rem@) == seq![rem@]);
                        assert(seq![rem@][0] == rem@);
                        assert(seq![rem@].drop_first() =~= Seq::<Seq<char>>::empty());
                        assert(parse_tokens(Seq::<Seq<char>>::empty()) == Some(0u64));
                    }
                    let trimmed = trim_spaces(rem);
                    match lookup_flag(trimmed) {
                        Some(b) => {
                            let m = flag_mask_at(b);
                            proof {
                                lemma_flag_mask_valid(b as int);
                                let m2 = m;
                                let acc2 = acc;
                                assert((acc2 & 0x3FFu64 == acc2 && m2 & 0x3FFu64 == m2) ==> ((
                                acc2 | m2) & 0x3FFu64 == (acc2 | m2))) by (bit_vector);
                                assert(acc2 | (0u64 | m2) == acc2 | m2) by (bit_vector);
                            }
                            return Some(Permission { bits: acc | m });
                        },
                        None => {
                            return None;
                        },
                    }
                },
            }
        }
    }
}

/// Every named mask lies inside the known vocabulary.
pub proof fn lemma_flag_mask_valid(i: int)
    ensures
        flag_mask(i) & ALL_PERMISSION_BITS == flag_mask(i),
{
    assert(0x001u64 & 0x3FFu64 == 0x001u64 && 0x002u64 & 0x3FFu64 == 0x002u64 && 0x004u64
        & 0x3FFu64 == 0x004u64 && 0x008u64 & 0x3FFu64 == 0x008u64 && 0x010u64 & 0x3FFu64
        == 0x010u64 && 0x020u64 & 0x3FFu64 == 0x020u64 && 0x040u64 & 0x3FFu64 == 0x040u64
        && 0x080u64 & 0x3FFu64 == 0x080u64 && 0x100u64 & 0x3FFu64 == 0x100u64 && 0x200u64
        & 0x3FFu64 == 0x200u64 && 0u64 & 0x3FFu64 == 0u64) by (bit_vector);
}

/// A well-formed flag name: non-empty, and free of the separator and padding
/// characters.
pub open spec fn clean_name(n: Seq<char>) -> bool {
    n.len() > 0 && forall|j: int| 0 <= j < n.len() ==> n[j] != '|' && n[j] != ' '
}

/// Every flag name is well formed.
pub proof fn lemma_flag_name_wf(i: int)
    requires
        0 <= i < 10,
    ensures
        clean_name(flag_name(i)),
{
}

/// A well-formed flag name trims to itself.
pub proof fn lemma_clean_trim(n: Seq<char>)
    requires
        clean_name(n),
    ensures
        trim(n) == n,
{
    lemma_ltrim_noop(n);
    lemma_rtrim_noop(n);
}

/// A flag name parses back to its own bit.
pub proof fn lemma_bit_of_flag_name(i: int)
    requires
        0 <= i < 10,
    ensures
        bit_of_name(flag_name(i)) == Some(i),
{
}

/// Every name listed for a bitset is well formed.
proof fn lemma_names_wf(bits: u64, i: int)
    ensures
        forall|k: int|
            0 <= k < names_of_bits(bits, i).len() ==> clean_name(
                #[trigger] names_of_bits(bits, i)[k],
            ),
    decreases 10 - i,
{
    if 0 <= i < 10 {
        lemma_names_wf(bits, i + 1);
        lemma_flag_name_wf(i);
        if bits & flag_mask(i) != 0 {
            let ns = names_of_bits(bits, i);
            assert forall|k: int| 0 <= k < ns.len() implies clean_name(ns[k]) by {
                if k > 0 {
                    assert(ns[k] == names_of_bits(bits, i + 1)[k - 1]);
                    assert(clean_name(names_of_bits(bits, i + 1)[k - 1]));
                }
            }
        } else {
            let ns = names_of_bits(bits, i);
            assert(ns == names_of_bits(bits, i + 1));
            assert forall|k: int| 0 <= k < ns.len() implies clean_name(ns[k]) by {
                assert(clean_name(names_of_bits(bits, i + 1)[k]));
            }
        }
    }
}

/// An empty name list means no bit at or above `i` is set.
proof fn lemma_names_empty_bits(bits: u64, i: int)
    requires
        0 <= i <= 10,
        names_of_bits(bits, i).len() == 0,
    ensures
        forall|j: int| i <= j < 10 ==> bits & flag_mask(j) == 0,
    decreases 10 - i,
{
    if i < 10 {
        lemma_names_empty_bits(bits, i + 1);
    }
}

/// Splitting the joined names on `'|'` gives the names back, one per token,
/// up to space padding. `lead` is space padding already consumed from an
/// enclosing join.
proof fn lemma_tokenize_join(names: Seq<Seq<char>>, lead: Seq<char>)
    requires
        names.len() >= 1,
        forall|k: int| 0 <= k < names.len() ==> clean_name(#[trigger] names[k]),
        forall|i: int| 0 <= i < lead.len() ==> lead[i] == ' ',
    ensures
        tokenize(lead + join_flags(names)).len() == names.len(),
        forall|k: int|
            0 <= k < names.len() ==> trim(
                #[trigger] tokenize(lead + join_flags(names))[k],
            ) == names[k],
    decreases names.len(),
{
    let s = lead + join_flags(names);
    if names.len() == 1 {
        assert(join_flags(names) == names[0]);
        assert forall|i: int| 0 <= i < s.len() implies s[i] != '|' by {
            if i < lead.len() {
                assert(s[i] == lead[i]);
            } else {
                assert(s[i] == names[0][i - lead.len()]);
            }
        }
        lemma_split_none('|', s);
        assert(tokenize(s) == seq![s]);
        assert(seq![s][0] == s);
        lemma_trim_padded(lead, names[0], Seq::empty());
        assert(lead + names[0] + Seq::<char>::empty() =~= s);
    } else {
        let n0 = names[0];
        let rest = names.drop_first();
        assert(join_flags(names) == n0 + flag_sep() + join_flags(rest));
        let a = lead + n0 + seq![' '];
        let b = seq![' '] + join_flags(rest);
        assert(s =~= a + seq!['|'] + b);
        assert forall|i: int| 0 <= i < a.len() implies a[i] != '|' by {
            if i < lead.len() {
                assert(a[i] == lead[i]);
            } else if i < lead.len() + n0.len() {
                assert(a[i] == n0[i - lead.len()]);
            } else {
                assert(a[i] == ' ');
            }
        }
        lemma_split_of_concat('|', a, b);
        assert(tokenize(s) == seq![a] + tokenize(b));
        assert forall|k: int| 0 <= k < rest.len() implies clean_name(#[trigger] rest[k]) by {
            assert(rest[k] == names[k + 1]);
        }
        lemma_tokenize_join(rest, seq![' ']);
        let toks = tokenize(s);
        let toks_b = tokenize(seq![' '] + join_flags(rest));
        assert(toks.len() == 1 + toks_b.len());
        lemma_trim_padded(lead, n0, seq![' ']);
        assert(lead + n0 + seq![' '] =~= a);
        assert forall|k: int| 0 <= k < names.len() implies trim(#[trigger] toks[k]) == names[k] by {
            if k == 0 {
                assert(toks[0] == a);
            } else {
                assert(toks[k] == toks_b[k - 1]);
                assert(names[k] == rest[k - 1]);
            }
        }
    }
}

/// Parsing sees only the trimmed tokens.
proof fn lemma_parse_tokens_of_trims(toks: Seq<Seq<char>>, names: Seq<Seq<char>>)
    requires
        toks.len() == names.len(),
        forall|k: int| 0 <= k < toks.len() ==> trim(#[trigger] toks[k]) == trim(names[k]),
    ensures
        parse_tokens(toks) == parse_tokens(names),
    decreases toks.len(),
{
    if toks.len() > 0 {
        assert forall|k: int|
            0 <= k < toks.drop_first().len() implies trim(#[trigger] toks.drop_first()[k]) == trim(
            names.drop_first()[k],
        ) by {
            assert(toks.drop_first()[k] == toks[k + 1]);
            assert(names.drop_first()[k] == names[k + 1]);
        }
        lemma_parse_tokens_of_trims(toks.drop_first(), names.drop_first());
    }
}

/// The bits whose index is at least `i`.
spec fn above_mask(i: int) -> u64 {
    if i <= 0 {
        0x3FF
    } else if i == 1 {
        0x3FE
    } else if i == 2 {
        0x3FC
    } else if i == 3 {
        0x3F8
    } else if i == 4 {
        0x3F0
    } else if i == 5 {
        0x3E0
    } else if i == 6 {
        0x3C0
    } else if i == 7 {
        0x380
    } else if i == 8 {
        0x300
    } else if i == 9 {
        0x200
    } else {
        0
    }
}

/// Parsing the listed names of a bitset recovers exactly its bits at or
/// above `i`.
proof fn lemma_parse_names_of_bits(bits: u64, i: int)
    requires
        valid_bits(bits),
        0 <= i <= 10,
    ensures
        parse_tokens(names_of_bits(bits, i)) == Some(bits & above_mask(i)),
    decreases 10 - i,
{
    let b2 = bits;
    if i == 10 {
        assert(names_of_bits(bits, 10) == Seq::<Seq<char>>::empty());
        assert(b2 & 0u64 == 0u64) by (bit_vector);
    } else {
        lemma_parse_names_of_bits(bits, i + 1);
        lemma_flag_name_wf(i);
        lemma_clean_trim(flag_name(i));
        lemma_bit_of_flag_name(i);
        if bits & flag_mask(i) != 0 {
            let ns = names_of_bits(bits, i);
            assert(ns == seq![flag_name(i)] + names_of_bits(bits, i + 1));
            assert(ns[0] == flag_name(i));
            assert(ns.drop_first() =~= names_of_bits(bits, i + 1));
        }
        if i == 0 {
            assert(((b2 & 0x001u64 != 0) ==> ((b2 & 0x3FEu64) | 0x001u64 == b2 & 0x3FFu64)) && ((b2
                & 0x001u64 == 0) ==> (b2 & 0x3FFu64 == b2 & 0x3FEu64))) by (bit_vector);
        } else if i == 1 {
            assert(((b2 & 0x002u64 != 0) ==> ((b2 & 0x3FCu64) | 0x002u64 == b2 & 0x3FEu64)) && ((b2
                & 0x002u64 == 0) ==> (b2 & 0x3FEu64 == b2 & 0x3FCu64))) by (bit_vector);
        } else if i == 2 {
            assert(((b2 & 0x004u64 != 0) ==> ((b2 & 0x3F8u64) | 0x004u64 == b2 & 0x3FCu64)) && ((b2
                & 0x004u64 == 0) ==> (b2 & 0x3FCu64 == b2 & 0x3F8u64))) by (bit_vector);
        } else if i == 3 {
            assert(((b2 & 0x008u64 != 0) ==> ((b2 & 0x3F0u64) | 0x008u64 == b2 & 0x3F8u64)) && ((b2
                & 0x008u64 == 0) ==> (b2 & 0x3F8u64 == b2 & 0x3F0u64))) by (bit_vector);
        } else if i == 4 {
            assert(((b2 & 0x010u64 != 0) ==> ((b2 & 0x3E0u64) | 0x010u64 == b2 & 0x3F0u64)) && ((b2
                & 0x010u64 == 0) ==> (b2 & 0x3F0u64 == b2 & 0x3E0u64))) by (bit_vector);
        } else if i == 5 {
            assert(((b2 & 0x020u64 != 0) ==> ((b2 & 0x3C0u64) | 0x020u64 == b2 & 0x3E0u64)) && ((b2
                & 0x020u64 == 0) ==> (b2 & 0x3E0u64 == b2 & 0x3C0u64))) by (bit_vector);
        } else if i == 6 {
            assert(((b2 & 0x040u64 != 0) ==> ((b2 & 0x380u64) | 0x040u64 == b2 & 0x3C0u64)) && ((b2
                & 0x040u64 == 0) ==> (b2 & 0x3C0u64 == b2 & 0x380u64))) by (bit_vector);
        } else if i == 7 {
            assert(((b2 & 0x080u64 != 0) ==> ((b2 & 0x300u64) | 0x080u64 == b2 & 0x380u64)) && ((b2
                & 0x080u64 == 0) ==> (b2 & 0x380u64 == b2 & 0x300u64))) by (bit_vector);
        } else if i == 8 {
            assert(((b2 & 0x100u64 != 0) ==> ((b2 & 0x200u64) | 0x100u64 == b2 & 0x300u64)) && ((b2
                & 0x100u64 == 0) ==> (b2 & 0x300u64 == b2 & 0x200u64))) by (bit_vector);
        } else {
            assert(((b2 & 0x200u64 != 0) ==> ((b2 & 0u64) | 0x200u64 == b2 & 0x200u64)) && ((b2
                & 0x200u64 == 0) ==> (b2 & 0x200u64 == b2 & 0u64))) by (bit_vector);
        }
    }
}

/// Serialization round trip: every permission set made of known bits parses
/// back, unchanged, from its own flag string — including the empty set and
/// the full set.
pub proof fn lemma_permission_string_roundtrip(bits: u64)
    requires
        valid_bits(bits),
    ensures
        perm_from_string(perm_to_string(bits)) == Some(bits),
{
    let names = names_of_bits(bits, 0);
    let b2 = bits;
    if names.len() == 0 {
        lemma_names_empty_bits(bits, 0);
        assert(bits & 0x001u64 == 0) by { assert(bits & flag_mask(0) == 0); }
        assert(bits & 0x002u64 == 0) by { assert(bits & flag_mask(1) == 0); }
        assert(bits & 0x004u64 == 0) by { assert(bits & flag_mask(2) == 0); }
        assert(bits & 0x008u64 == 0) by { assert(bits & flag_mask(3) == 0); }
        assert(bits & 0x010u64 == 0) by { assert(bits & flag_mask(4) == 0); }
        assert(bits & 0x020u64 == 0) by { assert(bits & flag_mask(5) == 0); }
        assert(bits & 0x040u64 == 0) by { assert(bits & flag_mask(6) == 0); }
        assert(bits & 0x080u64 == 0) by { assert(bits & flag_mask(7) == 0); }
        assert(bits & 0x100u64 == 0) by { assert(bits & flag_mask(8) == 0); }
        assert(bits & 0x200u64 == 0) by { assert(bits & flag_mask(9) == 0); }
        assert(b2 == 0) by (bit_vector)
            requires
                b2 & 0x3FFu64 == b2,
                b2 & 0x001u64 == 0,
                b2 & 0x002u64 == 0,
                b2 & 0x004u64 == 0,
                b2 & 0x008u64 == 0,
                b2 & 0x010u64 == 0,
                b2 & 0x020u64 == 0,
                b2 & 0x040u64 == 0,
                b2 & 0x080u64 == 0,
                b2 & 0x100u64 == 0,
                b2 & 0x200u64 == 0,
        ;
        assert(perm_to_string(bits) == Seq::<char>::empty());
        assert(trim(Seq::<char>::empty()).len() == 0);
    } else {
        lemma_names_wf(bits, 0);
        let joined = join_flags(names);
        lemma_tokenize_join(names, Seq::empty());
        assert(Seq::<char>::empty() + joined =~= joined);
        let toks = tokenize(joined);
        // the serialized string is not blank: it starts with a name character
        assert(clean_name(names[0]));
        if names.len() == 1 {
            assert(joined == names[0]);
        }
        assert(joined[0] == names[0][0]);
        lemma_ltrim_noop(joined);
        lemma_rtrim_all_spaces(joined);
        assert(trim(joined).len() > 0);
        // the tokens parse back to exactly the set bits
        assert forall|k: int| 0 <= k < toks.len() implies trim(#[trigger] toks[k]) == trim(
            names[k],
        ) by {
            lemma_clean_trim(names[k]);
        }
        lemma_parse_tokens_of_trims(toks, names);
        lemma_parse_names_of_bits(bits, 0);
        assert(b2 & 0x3FFu64 == b2 ==> b2 & 0x3FFu64 == b2) by (bit_vector);
        assert(parse_tokens(names) == Some(bits));
    }
}

} // verus!
