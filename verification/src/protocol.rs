//! The wire command protocol.
//!
//! A command frame is one decrypted byte string, segmented by `|` into
//! positional fields. Recognized prefixes select the operation: `GET` pulls a
//! file from the agent, `PUT` pushes one to it, `SHELL` allocates an
//! interactive pseudo-terminal of the given width and height; any other frame
//! is a shell command line to execute. Malformed field counts and
//! non-numeric size fields are typed parse errors, fatal for that session.

use vstd::prelude::*;

verus! {

/// The field separator of the wire protocol: `|`.
pub const SEP: u8 = 124;

/// The read ceiling of one wire frame: identity and command frames are read
/// into a buffer of this many bytes, at most.
pub const FRAME_BUF_SIZE: usize = 1024;

/// Index of the first separator byte of `s`, or `s.len()` if there is none.
pub open spec fn first_sep(s: Seq<u8>) -> nat
    decreases s.len(),
{
    if s.len() == 0 {
        0
    } else if s[0] == SEP {
        0
    } else {
        1 + first_sep(s.drop_first())
    }
}

/// The fields of `s`: the segments between separator bytes, in order. A
/// frame without separators is one field; every separator ends a field, so
/// `n` separators give `n + 1` fields, empty ones included.
pub open spec fn split_bytes(s: Seq<u8>) -> Seq<Seq<u8>>
    decreases s.len(),
{
    let i = first_sep(s);
    if i >= s.len() {
        seq![s]
    } else {
        seq![s.subrange(0, i as int)] + split_bytes(s.subrange(i as int + 1, s.len() as int))
    }
}

/// `first_sep` points at the first separator: nothing before it is one, and
/// it is in bounds exactly when a separator exists.
pub proof fn lemma_first_sep_props(s: Seq<u8>)
    ensures
        first_sep(s) <= s.len(),
        forall|i: int| 0 <= i < first_sep(s) ==> s[i] != SEP,
        first_sep(s) < s.len() ==> s[first_sep(s) as int] == SEP,
    decreases s.len(),
{
    if s.len() > 0 && s[0] != SEP {
        let dt = s.drop_first();
        lemma_first_sep_props(dt);
        assert forall|i: int| 0 <= i < first_sep(s) implies s[i] != SEP by {
            if i > 0 {
                assert(s[i] == dt[i - 1]);
            }
        }
    }
}

/// If nothing before `k` is a separator and `s[k]` is one, then `k` is the
/// first separator.
pub proof fn lemma_first_sep_at(s: Seq<u8>, k: int)
    requires
        0 <= k < s.len(),
        s[k] == SEP,
        forall|i: int| 0 <= i < k ==> s[i] != SEP,
    ensures
        first_sep(s) == k,
{
    lemma_first_sep_props(s);
    if first_sep(s) < k {
        assert(s[first_sep(s) as int] != SEP);
    }
    if first_sep(s) > k {
        assert(s[k] != SEP);
    }
}

/// A frame without separators is a single field.
pub proof fn lemma_split_no_sep(s: Seq<u8>)
    requires
        forall|i: int| 0 <= i < s.len() ==> s[i] != SEP,
    ensures
        split_bytes(s) == seq![s],
{
    lemma_first_sep_props(s);
    if first_sep(s) < s.len() {
        assert(s[first_sep(s) as int] != SEP);
    }
}

/// Splitting distributes over the first separator: the bytes before it are
/// the first field, the bytes after it split on their own.
pub proof fn lemma_split_at_sep(a: Seq<u8>, b: Seq<u8>)
    requires
        forall|i: int| 0 <= i < a.len() ==> a[i] != SEP,
    ensures
        split_bytes(a + seq![SEP] + b) == seq![a] + split_bytes(b),
{
    let s = a + seq![SEP] + b;
    assert(s[a.len() as int] == SEP);
    lemma_first_sep_at(s, a.len() as int);
    assert(s.subrange(0, a.len() as int) =~= a);
    assert(s.subrange(a.len() as int + 1, s.len() as int) =~= b);
}

/// The split of any frame has at least one field.
pub proof fn lemma_split_nonempty(s: Seq<u8>)
    ensures
        split_bytes(s).len() >= 1,
{
}

/// How the split changes when the first byte, not a separator, is peeled
/// off: it is peeled off the first field.
proof fn lemma_split_step_byte(t: Seq<u8>)
    requires
        t.len() > 0,
        t[0] != SEP,
    ensures
        split_bytes(t).first() == seq![t[0]] + split_bytes(t.drop_first()).first(),
        split_bytes(t).drop_first() == split_bytes(t.drop_first()).drop_first(),
{
    let dt = t.drop_first();
    let i = first_sep(t);
    assert(i == 1 + first_sep(dt));
    lemma_first_sep_props(t);
    if i >= t.len() {
        assert(split_bytes(t).first() =~= seq![t[0]] + split_bytes(dt).first());
        assert(split_bytes(t).drop_first() =~= split_bytes(dt).drop_first());
    } else {
        assert(t.subrange(0, i as int) =~= seq![t[0]] + dt.subrange(0, i - 1));
        assert(t.subrange(i as int + 1, t.len() as int) =~= dt.subrange(i as int, dt.len() as int));
        assert(split_bytes(t).drop_first() =~= split_bytes(dt).drop_first());
    }
}

/// How the split changes when the first byte is a separator: an empty first
/// field is cut off.
proof fn lemma_split_step_sep(t: Seq<u8>)
    requires
        t.len() > 0,
        t[0] == SEP,
    ensures
        split_bytes(t) == seq![Seq::<u8>::empty()] + split_bytes(t.drop_first()),
{
    assert(first_sep(t) == 0);
    assert(t.subrange(0, 0) =~= Seq::<u8>::empty());
    assert(t.subrange(1, t.len() as int) =~= t.drop_first());
}

/// The remaining split with the bytes collected so far glued onto its first
/// field: the loop invariant shape of `split_fields`.
spec fn glue(cur: Seq<u8>, chunks: Seq<Seq<u8>>) -> Seq<Seq<u8>>
    recommends
        chunks.len() >= 1,
{
    seq![cur + chunks.first()] + chunks.drop_first()
}

/// Splits a frame into its fields.
pub fn split_fields(s: &[u8]) -> (v: Vec<Vec<u8>>)
    ensures
        v.deep_view() == split_bytes(s@),
{
    let ghost whole = s@;
    let mut v: Vec<Vec<u8>> = Vec::new();
    let mut cur: Vec<u8> = Vec::new();
    let mut i: usize = 0;
    proof {
        assert(whole.skip(0) =~= whole);
        lemma_split_nonempty(whole);
        assert(v.deep_view() + glue(cur@, split_bytes(whole)) =~~= split_bytes(whole));
    }
    while i < s.len()
        invariant
            whole == s@,
            0 <= i <= whole.len(),
            split_bytes(whole) == v.deep_view() + glue(cur@, split_bytes(whole.skip(i as int))),
        decreases s@.len() - i,
    {
        let ghost t = whole.skip(i as int);
        let ghost prev_v = v.deep_view();
        let ghost prev_cur = cur@;
        proof {
            assert(t.len() > 0);
            assert(t[0] == whole[i as int]);
            assert(t.drop_first() =~= whole.skip(i as int + 1));
            lemma_split_nonempty(t.drop_first());
        }
        if s[i] == SEP {
            v.push(cur);
            cur = Vec::new();
            proof {
                lemma_split_step_sep(t);
                assert(v.deep_view() =~~= prev_v + seq![prev_cur]);
                assert(prev_v + glue(prev_cur, split_bytes(t)) =~~= v.deep_view() + glue(
                    cur@,
                    split_bytes(whole.skip(i as int + 1)),
                ));
            }
        } else {
            let b = s[i];
            cur.push(b);
            proof {
                lemma_split_step_byte(t);
                assert(cur@ =~= prev_cur + seq![t[0]]);
                assert(prev_v + glue(prev_cur, split_bytes(t)) =~~= v.deep_view() + glue(
                    cur@,
                    split_bytes(whole.skip(i as int + 1)),
                ));
            }
        }
        i = i + 1;
    }
    let ghost last_v = v.deep_view();
    let ghost last_cur = cur@;
    v.push(cur);
    proof {
        let t = whole.skip(i as int);
        assert(t =~= Seq::<u8>::empty());
        assert(split_bytes(t) == seq![Seq::<u8>::empty()]);
        assert(v.deep_view() =~~= last_v + seq![last_cur]);
        assert(v.deep_view() =~~= split_bytes(whole));
    }
    v
}

/// An ASCII decimal digit.
pub open spec fn is_dec_digit(c: u8) -> bool {
    48 <= c <= 57
}

/// The number the decimal digits `s` denote, most significant first.
pub open spec fn digits_value(s: Seq<u8>) -> int
    decreases s.len(),
{
    if s.len() == 0 {
        0
    } else {
        digits_value(s.drop_last()) * 10 + (s.last() - 48)
    }
}

/// The digits of an unsigned size field: a leading `+` is tolerated, as the
/// platform's integer parser tolerates it.
pub open spec fn spec_u16_digits(s: Seq<u8>) -> Seq<u8> {
    if s.len() > 0 && s[0] == 43 {
        s.drop_first()
    } else {
        s
    }
}

/// Whether a size field is a well-formed `u16`: after the optional sign, at
/// least one byte, all decimal digits, and a value that fits.
pub open spec fn spec_u16_ok(s: Seq<u8>) -> bool {
    let d = spec_u16_digits(s);
    &&& d.len() > 0
    &&& forall|i: int| 0 <= i < d.len() ==> is_dec_digit(d[i])
    &&& digits_value(d) <= u16::MAX
}

/// The parse of a size field: its value if well formed, nothing otherwise.
pub open spec fn spec_parse_u16(s: Seq<u8>) -> Option<u16> {
    if spec_u16_ok(s) {
        Some(digits_value(spec_u16_digits(s)) as u16)
    } else {
        None
    }
}

/// A digit string's value does not shrink when digits are appended.
proof fn lemma_digits_value_bounds(s: Seq<u8>, i: int)
    requires
        0 <= i <= s.len(),
        forall|k: int| 0 <= k < s.len() ==> is_dec_digit(s[k]),
    ensures
        digits_value(s) >= digits_value(s.take(i)) >= 0,
    decreases s.len() - i,
{
    if i == s.len() {
        assert(s.take(i) =~= s);
        lemma_digits_value_nonneg(s);
    } else {
        lemma_digits_value_bounds(s, i + 1);
        let t = s.take(i + 1);
        assert(t.drop_last() =~= s.take(i));
        lemma_digits_value_nonneg(s.take(i));
    }
}

/// A digit string's value is never negative.
proof fn lemma_digits_value_nonneg(s: Seq<u8>)
    requires
        forall|k: int| 0 <= k < s.len() ==> is_dec_digit(s[k]),
    ensures
        digits_value(s) >= 0,
    decreases s.len(),
{
    if s.len() > 0 {
        lemma_digits_value_nonneg(s.drop_last());
    }
}

/// Parses a size field as an unsigned 16-bit number: an optional leading
/// `+`, then at least one decimal digit, and a value no greater than
/// `u16::MAX`; anything else is rejected.
pub fn parse_u16(s: &[u8]) -> (r: Option<u16>)
    ensures
        r == spec_parse_u16(s@),
{
    let ghost d = spec_u16_digits(s@);
    let start: usize = if s.len() > 0 && s[0] == 43 {
        1
    } else {
        0
    };
    proof {
        assert(d =~= s@.skip(start as int));
    }
    if s.len() == start {
        return None;
    }
    let mut acc: u32 = 0;
    let mut i: usize = start;
    while i < s.len()
        invariant
            0 <= start <= i <= s@.len(),
            d == spec_u16_digits(s@),
            d == s@.skip(start as int),
            acc == digits_value(d.take(i - start)),
            acc <= u16::MAX,
            forall|k: int| 0 <= k < i - start ==> is_dec_digit(d[k]),
        decreases s@.len() - i,
    {
        let c = s[i];
        proof {
            assert(d[i - start] == s@[i as int]);
        }
        if c < 48 || c > 57 {
            assert(!is_dec_digit(d[i - start]));
            return None;
        }
        let next: u32 = acc * 10 + ((c - 48) as u32);
        proof {
            let t = d.take(i - start + 1);
            assert(t.drop_last() =~= d.take(i - start));
            assert(t.last() == d[i - start]);
        }
        if next > u16::MAX as u32 {
            proof {
                if spec_u16_ok(s@) {
                    assert(forall|k: int| 0 <= k < d.len() ==> is_dec_digit(d[k]));
                    assert(digits_value(d.take(i - start + 1)) == next);
                    lemma_digits_value_bounds(d, i - start + 1);
                }
            }
            return None;
        }
        acc = next;
        i = i + 1;
    }
    proof {
        assert(d.take(i - start) =~= d);
    }
    Some(acc as u16)
}

/// The decimal digits of `n`, most significant first, no leading zero.
pub open spec fn dec_digits(n: int) -> Seq<u8>
    decreases n,
{
    if n < 10 {
        seq![(48 + if n >= 0 { n } else { 0 }) as u8]
    } else {
        dec_digits(n / 10) + seq![(48 + n % 10) as u8]
    }
}

/// The decimal rendering of a number denotes that number, and is made of
/// digits only.
pub proof fn lemma_dec_digits_value(n: int)
    requires
        n >= 0,
    ensures
        digits_value(dec_digits(n)) == n,
        dec_digits(n).len() >= 1,
        forall|i: int| 0 <= i < dec_digits(n).len() ==> is_dec_digit(dec_digits(n)[i]),
    decreases n,
{
    if n < 10 {
        assert(dec_digits(n) =~= seq![(48 + n) as u8]);
        assert(dec_digits(n).drop_last() =~= Seq::<u8>::empty());
        assert(dec_digits(n).last() == (48 + n) as u8);
        assert((48 + n) as u8 == 48 + n);
        assert(digits_value(dec_digits(n)) == digits_value(Seq::<u8>::empty()) * 10 + ((48 + n)
            - 48));
    } else {
        lemma_dec_digits_value(n / 10);
        assert(dec_digits(n).drop_last() =~= dec_digits(n / 10));
        assert(dec_digits(n).last() == (48 + n % 10) as u8);
        assert(0 <= n % 10 < 10);
        assert(digits_value(dec_digits(n)) == (n / 10) * 10 + n % 10);
        assert(n == (n / 10) * 10 + n % 10) by (nonlinear_arith);
    }
}

/// `p` is a prefix of `s`.
pub open spec fn spec_starts_with(s: Seq<u8>, p: Seq<u8>) -> bool {
    p.len() <= s.len() && (forall|i: int| 0 <= i < p.len() ==> s[i] == p[i])
}

/// The `GET` tag.
pub open spec fn get_tag() -> Seq<u8> {
    seq![71u8, 69u8, 84u8]
}

/// The `PUT` tag.
pub open spec fn put_tag() -> Seq<u8> {
    seq![80u8, 85u8, 84u8]
}

/// The `SHELL` tag.
pub open spec fn shell_tag() -> Seq<u8> {
    seq![83u8, 72u8, 69u8, 76u8, 76u8]
}

/// One decoded command frame: the operation the controller dictates for
/// this session.
#[derive(Debug, PartialEq, Eq)]
pub enum Command {
    /// Run this shell command line and stream its output back.
    Exec(Vec<u8>),
    /// Send the file at this path to the controller.
    Get(Vec<u8>),
    /// Receive a file of this name into this target directory.
    Put(Vec<u8>, Vec<u8>),
    /// Allocate a pseudo-terminal of this width and height and bridge it.
    Shell(u16, u16),
}

/// The mathematical shape of a command frame.
pub enum CommandModel {
    Exec(Seq<u8>),
    Get(Seq<u8>),
    Put(Seq<u8>, Seq<u8>),
    Shell(u16, u16),
}

impl View for Command {
    type V = CommandModel;

    open spec fn view(&self) -> CommandModel {
        match self {
            Command::Exec(c) => CommandModel::Exec(c@),
            Command::Get(p) => CommandModel::Get(p@),
            Command::Put(f, d) => CommandModel::Put(f@, d@),
            Command::Shell(w, h) => CommandModel::Shell(*w, *h),
        }
    }
}

/// Why a command frame was rejected; rejection ends the session.
#[derive(Clone, Copy, PartialEq, Eq, Structural, Debug)]
pub enum ParseError {
    /// A recognized tag without the fields its variant requires.
    MissingField,
    /// A size field of a `SHELL` frame is not an unsigned 16-bit number.
    InvalidNumber,
}

/// The parse of one decrypted command frame. A recognized tag selects the
/// variant and fixes which fields it takes; a frame with no recognized tag
/// is, whole, a command line to execute.
pub open spec fn spec_parse(s: Seq<u8>) -> Result<CommandModel, ParseError> {
    if spec_starts_with(s, get_tag()) {
        let f = split_bytes(s);
        if f.len() >= 2 {
            Ok(CommandModel::Get(f[1]))
        } else {
            Err(ParseError::MissingField)
        }
    } else if spec_starts_with(s, put_tag()) {
        let f = split_bytes(s);
        if f.len() >= 3 {
            Ok(CommandModel::Put(f[1], f[2]))
        } else {
            Err(ParseError::MissingField)
        }
    } else if spec_starts_with(s, shell_tag()) {
        let f = split_bytes(s);
        if f.len() < 3 {
            Err(ParseError::MissingField)
        } else if spec_parse_u16(f[1]) is Some && spec_parse_u16(f[2]) is Some {
            Ok(
                CommandModel::Shell(
                    spec_parse_u16(f[1]).unwrap(),
                    spec_parse_u16(f[2]).unwrap(),
                ),
            )
        } else {
            Err(ParseError::InvalidNumber)
        }
    } else {
        Ok(CommandModel::Exec(s))
    }
}

/// `p` is a prefix of `s`, byte for byte.
fn has_prefix(s: &[u8], p: &[u8]) -> (b: bool)
    ensures
        b == spec_starts_with(s@, p@),
{
    if p.len() > s.len() {
        return false;
    }
    let mut i: usize = 0;
    while i < p.len()
        invariant
            0 <= i <= p@.len() <= s@.len(),
            forall|k: int| 0 <= k < i ==> s@[k] == p@[k],
        decreases p@.len() - i,
    {
        if s[i] != p[i] {
            return false;
        }
        i = i + 1;
    }
    true
}

/// Parses one decrypted command frame, as `spec_parse` describes: `GET`
/// takes a path field, `PUT` a filename and a target directory, `SHELL` a
/// width and a height that must be unsigned 16-bit numbers; missing fields
/// and malformed numbers are typed errors, and a frame with no recognized
/// tag is a command line to execute.
pub fn parse_command(s: &[u8]) -> (r: Result<Command, ParseError>)
    ensures
        match r {
            Ok(c) => spec_parse(s@) == Ok::<CommandModel, ParseError>(c@),
            Err(e) => spec_parse(s@) == Err::<CommandModel, ParseError>(e),
        },
{
    let get_t: [u8; 3] = [71, 69, 84];
    let put_t: [u8; 3] = [80, 85, 84];
    let shell_t: [u8; 5] = [83, 72, 69, 76, 76];
    proof {
        assert(get_t@ =~= get_tag());
        assert(put_t@ =~= put_tag());
        assert(shell_t@ =~= shell_tag());
    }
    if has_prefix(s, &get_t) {
        let mut fields = split_fields(s);
        if fields.len() >= 2 {
            let path = fields.remove(1);
            proof {
                assert(path@ == split_bytes(s@)[1]);
            }
            Ok(Command::Get(path))
        } else {
            Err(ParseError::MissingField)
        }
    } else if has_prefix(s, &put_t) {
        let mut fields = split_fields(s);
        if fields.len() >= 3 {
            let dir = fields.remove(2);
            let name = fields.remove(1);
            proof {
                assert(dir@ == split_bytes(s@)[2]);
                assert(name@ == split_bytes(s@)[1]);
            }
            Ok(Command::Put(name, dir))
        } else {
            Err(ParseError::MissingField)
        }
    } else if has_prefix(s, &shell_t) {
        let fields = split_fields(s);
        if fields.len() < 3 {
            return Err(ParseError::MissingField);
        }
        proof {
            assert(fields@[1]@ == split_bytes(s@)[1]);
            assert(fields@[2]@ == split_bytes(s@)[2]);
        }
        let w = parse_u16(fields[1].as_slice());
        let h = parse_u16(fields[2].as_slice());
        match (w, h) {
            (Some(w), Some(h)) => Ok(Command::Shell(w, h)),
            _ => Err(ParseError::InvalidNumber),
        }
    } else {
        let owned = vstd::slice::slice_to_vec(s);
        Ok(Command::Exec(owned))
    }
}

/// Appends a copy of `s` to `out`.
pub(crate) fn push_all(out: &mut Vec<u8>, s: &[u8])
    ensures
        final (out)@ == old(out)@ + s@,
{
    let mut i: usize = 0;
    while i < s.len()
        invariant
            0 <= i <= s@.len(),
            out@ == old(out)@ + s@.take(i as int),
        decreases s@.len() - i,
    {
        let b = s[i];
        out.push(b);
        proof {
            assert(old(out)@ + s@.take(i as int) + seq![s@[i as int]] =~= old(out)@ + s@.take(
                i as int + 1,
            ));
        }
        i = i + 1;
    }
    proof {
        assert(s@.take(s@.len() as int) =~= s@);
    }
}

/// Builds the `GET` frame for this path: the tag, a separator, the path.
pub fn encode_get(path: &[u8]) -> (v: Vec<u8>)
    ensures
        v@ == get_tag() + seq![SEP] + path@,
{
    let mut v: Vec<u8> = Vec::new();
    v.push(71);
    v.push(69);
    v.push(84);
    v.push(SEP);
    proof {
        assert(v@ =~= get_tag() + seq![SEP]);
    }
    push_all(&mut v, path);
    v
}

/// Builds the `PUT` frame for this filename and target directory.
pub fn encode_put(filename: &[u8], target_dir: &[u8]) -> (v: Vec<u8>)
    ensures
        v@ == put_tag() + seq![SEP] + filename@ + seq![SEP] + target_dir@,
{
    let mut v: Vec<u8> = Vec::new();
    v.push(80);
    v.push(85);
    v.push(84);
    v.push(SEP);
    proof {
        assert(v@ =~= put_tag() + seq![SEP]);
    }
    push_all(&mut v, filename);
    v.push(SEP);
    proof {
        assert(v@ =~= put_tag() + seq![SEP] + filename@ + seq![SEP]);
    }
    push_all(&mut v, target_dir);
    v
}

/// Builds the `SHELL` frame for this window size, the width and height in
/// decimal.
pub fn encode_shell(width: u16, height: u16) -> (v: Vec<u8>)
    ensures
        v@ == shell_tag() + seq![SEP] + dec_digits(width as int) + seq![SEP] + dec_digits(
            height as int,
        ),
{
    let mut v: Vec<u8> = Vec::new();
    v.push(83);
    v.push(72);
    v.push(69);
    v.push(76);
    v.push(76);
    v.push(SEP);
    proof {
        assert(v@ =~= shell_tag() + seq![SEP]);
    }
    push_dec(width, &mut v);
    v.push(SEP);
    proof {
        assert(v@ =~= shell_tag() + seq![SEP] + dec_digits(width as int) + seq![SEP]);
    }
    push_dec(height, &mut v);
    v
}

/// Appends the decimal digits of `n` to `out`.
fn push_dec(n: u16, out: &mut Vec<u8>)
    ensures
        final (out)@ == old(out)@ + dec_digits(n as int),
    decreases n,
{
    if n >= 10 {
        push_dec(n / 10, out);
    }
    out.push(48 + (n % 10) as u8);
    proof {
        if n < 10 {
            assert(old(out)@ + dec_digits(n as int) =~= out@);
        } else {
            assert(old(out)@ + dec_digits(n as int) =~= out@);
        }
    }
}

/// A digit is never the separator or the sign.
proof fn lemma_digits_not_special(s: Seq<u8>)
    requires
        forall|i: int| 0 <= i < s.len() ==> is_dec_digit(s[i]),
    ensures
        forall|i: int| 0 <= i < s.len() ==> s[i] != SEP,
        s.len() > 0 ==> s[0] != 43,
{
}

/// Round trip of a `GET` frame: building the frame for a path without
/// separator bytes and parsing it yields exactly that path back.
pub proof fn lemma_parse_encode_get(path: Seq<u8>)
    requires
        forall|i: int| 0 <= i < path.len() ==> path[i] != SEP,
    ensures
        spec_parse(get_tag() + seq![SEP] + path) == Ok::<CommandModel, ParseError>(
            CommandModel::Get(path),
        ),
{
    let s = get_tag() + seq![SEP] + path;
    lemma_split_at_sep(get_tag(), path);
    lemma_split_no_sep(path);
    assert(spec_starts_with(s, get_tag()));
    assert(!spec_starts_with(s, put_tag())) by {
        assert(s[0] == 71 && put_tag()[0] == 80);
    }
    assert(!spec_starts_with(s, shell_tag())) by {
        assert(s[0] == 71 && shell_tag()[0] == 83);
    }
    let f = split_bytes(s);
    assert(f == seq![get_tag()] + seq![path]);
    assert(f[1] == path);
}

/// Round trip of a `PUT` frame: building the frame for a filename and a
/// target directory without separator bytes and parsing it yields both back.
pub proof fn lemma_parse_encode_put(filename: Seq<u8>, target_dir: Seq<u8>)
    requires
        forall|i: int| 0 <= i < filename.len() ==> filename[i] != SEP,
        forall|i: int| 0 <= i < target_dir.len() ==> target_dir[i] != SEP,
    ensures
        spec_parse(put_tag() + seq![SEP] + filename + seq![SEP] + target_dir) == Ok::<
            CommandModel,
            ParseError,
        >(CommandModel::Put(filename, target_dir)),
{
    let s = put_tag() + seq![SEP] + filename + seq![SEP] + target_dir;
    assert(s =~= put_tag() + seq![SEP] + (filename + seq![SEP] + target_dir));
    lemma_split_at_sep(put_tag(), filename + seq![SEP] + target_dir);
    lemma_split_at_sep(filename, target_dir);
    lemma_split_no_sep(target_dir);
    assert(spec_starts_with(s, put_tag()));
    assert(!spec_starts_with(s, get_tag())) by {
        assert(s[0] == 80 && get_tag()[0] == 71);
    }
    let f = split_bytes(s);
    assert(f == seq![put_tag()] + (seq![filename] + seq![target_dir]));
    assert(f.len() == 3 && f[1] == filename && f[2] == target_dir);
}

/// Round trip of a `SHELL` frame: building the frame for any window size
/// and parsing it yields exactly that width and height back.
pub proof fn lemma_parse_encode_shell(width: u16, height: u16)
    ensures
        spec_parse(
            shell_tag() + seq![SEP] + dec_digits(width as int) + seq![SEP] + dec_digits(
                height as int,
            ),
        ) == Ok::<CommandModel, ParseError>(CommandModel::Shell(width, height)),
{
    let dw = dec_digits(width as int);
    let dh = dec_digits(height as int);
    lemma_dec_digits_value(width as int);
    lemma_dec_digits_value(height as int);
    lemma_digits_not_special(dw);
    lemma_digits_not_special(dh);
    let s = shell_tag() + seq![SEP] + dw + seq![SEP] + dh;
    assert(s =~= shell_tag() + seq![SEP] + (dw + seq![SEP] + dh));
    lemma_split_at_sep(shell_tag(), dw + seq![SEP] + dh);
    lemma_split_at_sep(dw, dh);
    lemma_split_no_sep(dh);
    assert(spec_starts_with(s, shell_tag()));
    assert(!spec_starts_with(s, get_tag())) by {
        assert(s[0] == 83 && get_tag()[0] == 71);
    }
    assert(!spec_starts_with(s, put_tag())) by {
        assert(s[0] == 83 && put_tag()[0] == 80);
    }
    let f = split_bytes(s);
    assert(f == seq![shell_tag()] + (seq![dw] + seq![dh]));
    assert(f.len() == 3 && f[1] == dw && f[2] == dh);
    assert(spec_u16_digits(dw) == dw);
    assert(spec_u16_ok(dw));
    assert(spec_parse_u16(dw) == Some(width));
    assert(spec_u16_digits(dh) == dh);
    assert(spec_u16_ok(dh));
    assert(spec_parse_u16(dh) == Some(height));
}

/// The suffix that routes a command's standard error into its captured
/// output: ` 2>&1`.
pub open spec fn redirect_suffix() -> Seq<u8> {
    seq![32u8, 50u8, 62u8, 38u8, 49u8]
}

/// Builds the default command line to execute: the operator's command,
/// with the stderr-redirection suffix appended when requested.
pub fn build_exec_command(command: &[u8], redirect_stderr: bool) -> (v: Vec<u8>)
    ensures
        redirect_stderr ==> v@ == command@ + redirect_suffix(),
        !redirect_stderr ==> v@ == command@,
{
    let mut v = vstd::slice::slice_to_vec(command);
    if redirect_stderr {
        v.push(32);
        v.push(50);
        v.push(62);
        v.push(38);
        v.push(49);
        proof {
            assert(v@ =~= command@ + redirect_suffix());
        }
    }
    v
}

/// A frame with no recognized tag is, whole, a command line to execute.
pub proof fn lemma_parse_unrecognized(s: Seq<u8>)
    requires
        !spec_starts_with(s, get_tag()),
        !spec_starts_with(s, put_tag()),
        !spec_starts_with(s, shell_tag()),
    ensures
        spec_parse(s) == Ok::<CommandModel, ParseError>(CommandModel::Exec(s)),
{
}

} // verus!
