//! The digest that ties cached outcomes to the settings they were obtained under.
//!
//! Source and build are covered by the build id. Everything else that can turn a mutant from
//! surviving to killed is written to a hasher, so that a run with another test filter, another
//! execution model or other EVM options looks its results up under another key.

use crate::config::MutationRunConfig;
use crate::pattern::{regex_text, text_of, GlobPattern};
use regex::Regex;
use std::collections::hash_map::DefaultHasher;
use std::hash::Hasher;
use vstd::arithmetic::div_mod::lemma_div_denominator;
use vstd::arithmetic::power::{lemma_pow0, lemma_pow_positive, pow};
use vstd::prelude::*;
use vstd::std_specs::hash::DefaultHasherAdditionalSpecFns;
use vstd::seq_lib::lemma_flatten_concat;
use vstd::utf8::{encode_scalar, encode_utf8, encode_utf8_decode_utf8};

verus! {

/// The settings that affect outcomes and are not covered by the source or the build.
pub struct RuntimeContext<'a> {
    /// `--match-test`
    pub test_pattern: Option<&'a str>,
    /// `--no-match-test`
    pub test_pattern_inverse: Option<&'a str>,
    /// `--match-contract`
    pub contract_pattern: Option<&'a str>,
    /// `--no-match-contract`
    pub contract_pattern_inverse: Option<&'a str>,
    /// `--match-path`
    pub path_pattern: Option<&'a str>,
    /// `--no-match-path`
    pub path_pattern_inverse: Option<&'a str>,
    /// `--isolate`
    pub isolate: bool,
    /// The EVM options serialized as JSON, or `None` if they could not be serialized.
    pub evm_opts: Option<&'a Vec<u8>>,
}

/// The mathematical content of a [`RuntimeContext`].
#[verifier::ext_equal]
pub struct ContextView {
    pub test_pattern: Option<Seq<char>>,
    pub test_pattern_inverse: Option<Seq<char>>,
    pub contract_pattern: Option<Seq<char>>,
    pub contract_pattern_inverse: Option<Seq<char>>,
    pub path_pattern: Option<Seq<char>>,
    pub path_pattern_inverse: Option<Seq<char>>,
    pub isolate: bool,
    pub evm_opts: Option<Seq<u8>>,
}

/// The characters of an optional text.
pub open spec fn optional_chars(text: Option<&str>) -> Option<Seq<char>> {
    match text {
        Some(text) => Some(text@),
        None => None,
    }
}

/// The bytes of an optional blob.
pub open spec fn optional_bytes(blob: Option<&Vec<u8>>) -> Option<Seq<u8>> {
    match blob {
        Some(blob) => Some(blob@),
        None => None,
    }
}

impl<'a> View for RuntimeContext<'a> {
    type V = ContextView;

    open spec fn view(&self) -> ContextView {
        ContextView {
            test_pattern: optional_chars(self.test_pattern),
            test_pattern_inverse: optional_chars(self.test_pattern_inverse),
            contract_pattern: optional_chars(self.contract_pattern),
            contract_pattern_inverse: optional_chars(self.contract_pattern_inverse),
            path_pattern: optional_chars(self.path_pattern),
            path_pattern_inverse: optional_chars(self.path_pattern_inverse),
            isolate: self.isolate,
            evm_opts: optional_bytes(self.evm_opts),
        }
    }
}

/// The `width` low bytes of `value`, least significant first.
pub open spec fn le_bytes(value: nat, width: nat) -> Seq<u8>
    decreases width,
{
    if width == 0 {
        Seq::empty()
    } else {
        seq![(value % 256) as u8] + le_bytes(value / 256, (width - 1) as nat)
    }
}

/// The bytes of a `usize` in memory.
pub open spec fn usize_bytes(value: nat, big_endian: bool) -> Seq<u8> {
    let bytes = le_bytes(value, (usize::BITS / 8) as nat);
    if big_endian {
        bytes.reverse()
    } else {
        bytes
    }
}

/// What hashing an optional text writes: the variant, and for a text its UTF-8 bytes followed by
/// a byte that UTF-8 never uses.
pub open spec fn text_writes(text: Option<Seq<char>>, big_endian: bool) -> Seq<Seq<u8>> {
    match text {
        Some(text) => seq![usize_bytes(1, big_endian), encode_utf8(text), seq![0xffu8]],
        None => seq![usize_bytes(0, big_endian)],
    }
}

/// What hashing a flag writes.
pub open spec fn flag_writes(flag: bool) -> Seq<Seq<u8>> {
    seq![seq![if flag { 1u8 } else { 0u8 }]]
}

/// What the serialized EVM options write: their length and their bytes, or nothing if they could
/// not be serialized.
pub open spec fn blob_writes(blob: Option<Seq<u8>>, big_endian: bool) -> Seq<Seq<u8>> {
    match blob {
        Some(blob) => seq![usize_bytes(blob.len(), big_endian), blob],
        None => Seq::empty(),
    }
}

/// Everything that is written to the hasher for a context, in order.
pub open spec fn context_writes(context: ContextView, big_endian: bool) -> Seq<Seq<u8>> {
    text_writes(context.test_pattern, big_endian)
        + text_writes(context.test_pattern_inverse, big_endian)
        + text_writes(context.contract_pattern, big_endian)
        + text_writes(context.contract_pattern_inverse, big_endian)
        + text_writes(context.path_pattern, big_endian)
        + text_writes(context.path_pattern_inverse, big_endian)
        + flag_writes(context.isolate)
        + blob_writes(context.evm_opts, big_endian)
}

/// The bytes of `value` in the given byte order.
fn bytes_of_usize(value: usize, big_endian: bool) -> (bytes: Vec<u8>)
    ensures
        bytes@ == usize_bytes(value as nat, big_endian),
{
    let width: usize = (usize::BITS / 8) as usize;
    let mut bytes: Vec<u8> = Vec::new();
    let mut rest: usize = value;
    let mut done: usize = 0;
    while done < width
        invariant
            done <= width,
            le_bytes(value as nat, width as nat) =~= bytes@ + le_bytes(
                rest as nat,
                (width - done) as nat,
            ),
        decreases width - done,
    {
        bytes.push((rest % 256) as u8);
        rest = rest / 256;
        done = done + 1;
    }
    if big_endian {
        let mut reversed: Vec<u8> = Vec::new();
        let mut left: usize = bytes.len();
        while left > 0
            invariant
                left <= bytes.len(),
                reversed@ =~= bytes@.subrange(left as int, bytes@.len() as int).reverse(),
            decreases left,
        {
            left = left - 1;
            reversed.push(bytes[left]);
        }
        assert(bytes@.subrange(0, bytes@.len() as int) =~= bytes@);
        reversed
    } else {
        bytes
    }
}

/// Hashes an optional text.
fn write_text(hasher: &mut DefaultHasher, text: Option<&str>, big_endian: bool)
    ensures
        final(hasher)@ == old(hasher)@ + text_writes(optional_chars(text), big_endian),
{
    match text {
        Some(text) => {
            let end: [u8; 1] = [0xffu8];
            assert(end@ =~= seq![0xffu8]);
            hasher.write(bytes_of_usize(1, big_endian).as_slice());
            hasher.write(text.as_bytes());
            hasher.write(end.as_slice());
        },
        None => {
            hasher.write(bytes_of_usize(0, big_endian).as_slice());
        },
    }
    assert(hasher@ =~= old(hasher)@ + text_writes(optional_chars(text), big_endian));
}

/// Hashes a flag.
fn write_flag(hasher: &mut DefaultHasher, flag: bool)
    ensures
        final(hasher)@ == old(hasher)@ + flag_writes(flag),
{
    let byte: [u8; 1] = [if flag { 1u8 } else { 0u8 }];
    assert(byte@ =~= seq![if flag { 1u8 } else { 0u8 }]);
    hasher.write(byte.as_slice());
    assert(hasher@ =~= old(hasher)@ + flag_writes(flag));
}

/// Hashes the serialized EVM options.
fn write_blob(hasher: &mut DefaultHasher, blob: Option<&Vec<u8>>, big_endian: bool)
    ensures
        final(hasher)@ == old(hasher)@ + blob_writes(optional_bytes(blob), big_endian),
{
    match blob {
        Some(blob) => {
            hasher.write(bytes_of_usize(blob.len(), big_endian).as_slice());
            hasher.write(blob.as_slice());
        },
        None => {},
    }
    assert(hasher@ =~= old(hasher)@ + blob_writes(optional_bytes(blob), big_endian));
}

/// The digest of a context on a machine with the given byte order.
pub fn context_digest(context: &RuntimeContext, big_endian: bool) -> (digest: u64)
    ensures
        digest == DefaultHasher::spec_finish(context_writes(context@, big_endian)),
{
    let mut hasher: DefaultHasher = DefaultHasher::new();
    write_text(&mut hasher, context.test_pattern, big_endian);
    write_text(&mut hasher, context.test_pattern_inverse, big_endian);
    write_text(&mut hasher, context.contract_pattern, big_endian);
    write_text(&mut hasher, context.contract_pattern_inverse, big_endian);
    write_text(&mut hasher, context.path_pattern, big_endian);
    write_text(&mut hasher, context.path_pattern_inverse, big_endian);
    write_flag(&mut hasher, context.isolate);
    write_blob(&mut hasher, context.evm_opts, big_endian);
    assert(hasher@ =~= context_writes(context@, big_endian));
    hasher.finish()
}

/// The text of an optional regular expression.
fn optional_regex_text(pattern: &Option<Regex>) -> (text: Option<&str>)
    ensures
        optional_chars(text) == regex_chars(*pattern),
{
    match pattern {
        Some(pattern) => Some(text_of(pattern)),
        None => None,
    }
}

/// The text of an optional glob pattern.
fn optional_glob_text(pattern: &Option<GlobPattern>) -> (text: Option<&str>)
    ensures
        optional_chars(text) == glob_chars(*pattern),
{
    match pattern {
        Some(pattern) => Some(pattern.as_str()),
        None => None,
    }
}

/// The characters of an optional regular expression.
pub open spec fn regex_chars(pattern: Option<Regex>) -> Option<Seq<char>> {
    match pattern {
        Some(pattern) => Some(regex_text(pattern)),
        None => None,
    }
}

/// The characters of an optional glob pattern.
pub open spec fn glob_chars(pattern: Option<GlobPattern>) -> Option<Seq<char>> {
    match pattern {
        Some(pattern) => Some(pattern.text@),
        None => None,
    }
}

/// The context of a run with the given configuration and serialized EVM options.
pub open spec fn context_of(
    mutation_config: MutationRunConfig,
    evm_opts: Option<Seq<u8>>,
) -> ContextView {
    let filter = mutation_config.filter_args;
    ContextView {
        test_pattern: regex_chars(filter.test_pattern),
        test_pattern_inverse: regex_chars(filter.test_pattern_inverse),
        contract_pattern: regex_chars(filter.contract_pattern),
        contract_pattern_inverse: regex_chars(filter.contract_pattern_inverse),
        path_pattern: glob_chars(filter.path_pattern),
        path_pattern_inverse: glob_chars(filter.path_pattern_inverse),
        isolate: mutation_config.isolate,
        evm_opts,
    }
}

/// Gathers the settings that the digest covers.
pub fn runtime_context<'a>(
    mutation_config: &'a MutationRunConfig,
    evm_opts: Option<&'a Vec<u8>>,
) -> (context: RuntimeContext<'a>)
    ensures
        context@ == context_of(*mutation_config, optional_bytes(evm_opts)),
{
    let filter = &mutation_config.filter_args;
    RuntimeContext {
        test_pattern: optional_regex_text(&filter.test_pattern),
        test_pattern_inverse: optional_regex_text(&filter.test_pattern_inverse),
        contract_pattern: optional_regex_text(&filter.contract_pattern),
        contract_pattern_inverse: optional_regex_text(&filter.contract_pattern_inverse),
        path_pattern: optional_glob_text(&filter.path_pattern),
        path_pattern_inverse: optional_glob_text(&filter.path_pattern_inverse),
        isolate: mutation_config.isolate,
        evm_opts,
    }
}

/// The digest of a run with the given configuration and serialized EVM options, on a machine
/// with the given byte order.
pub open spec fn digest_of(
    mutation_config: MutationRunConfig,
    evm_opts: Option<Seq<u8>>,
    big_endian: bool,
) -> u64 {
    DefaultHasher::spec_finish(context_writes(context_of(mutation_config, evm_opts), big_endian))
}

/// Build a single digest of inputs that affect mutant pass/fail outcomes but are not already
/// covered by the source or build hash. Cache entries are invalidated when any of these change.
///
/// `evm_opts` are the EVM options serialized as JSON, or `None` if they could not be
/// serialized; they are then left out of the digest. `big_endian` is the byte order of the
/// machine.
pub fn runtime_context_digest(
    mutation_config: &MutationRunConfig,
    evm_opts: Option<&Vec<u8>>,
    big_endian: bool,
) -> (digest: u64)
    ensures
        digest == digest_of(*mutation_config, optional_bytes(evm_opts), big_endian),
{
    context_digest(&runtime_context(mutation_config, evm_opts), big_endian)
}

/// The length of [`le_bytes`], and its first byte.
proof fn lemma_le_bytes(value: nat, width: nat)
    ensures
        le_bytes(value, width).len() == width,
        width > 0 ==> le_bytes(value, width)[0] == (value % 256) as u8,
    decreases width,
{
    if width > 0 {
        lemma_le_bytes(value / 256, (width - 1) as nat);
    }
}

/// The two variants of an optional text start with different bytes of the same length.
proof fn lemma_variants_differ(big_endian: bool)
    ensures
        usize_bytes(0, big_endian).len() == usize_bytes(1, big_endian).len(),
        usize_bytes(0, big_endian) != usize_bytes(1, big_endian),
{
    let width = (usize::BITS / 8) as nat;
    lemma_le_bytes(0, width);
    lemma_le_bytes(1, width);
    let zero = le_bytes(0, width);
    let one = le_bytes(1, width);
    assert(zero[0] != one[0]);
    assert(zero.reverse()[width - 1] == zero[0]);
    assert(one.reverse()[width - 1] == one[0]);
}

/// UTF-8 never uses the byte 0xff.
proof fn lemma_utf8_has_no_terminator(chars: Seq<char>)
    ensures
        forall|i: int| 0 <= i < encode_utf8(chars).len() ==> encode_utf8(chars)[i] != 0xffu8,
    decreases chars.len(),
{
    if chars.len() > 0 {
        lemma_utf8_has_no_terminator(chars.drop_first());
        let scalar = chars[0] as u32;
        assert((scalar & 0x7f) as u8 != 0xff) by (bit_vector);
        assert((0xC0 | ((scalar >> 6) & 0x1F) as u8) != 0xff) by (bit_vector);
        assert((0xE0 | ((scalar >> 12) & 0x0F) as u8) != 0xff) by (bit_vector);
        assert((0xF0 | ((scalar >> 18) & 0x7) as u8) != 0xff) by (bit_vector);
        assert((0x80 | (scalar & 0x3F) as u8) != 0xff) by (bit_vector);
        assert((0x80 | ((scalar >> 6) & 0x3F) as u8) != 0xff) by (bit_vector);
        assert((0x80 | ((scalar >> 12) & 0x3F) as u8) != 0xff) by (bit_vector);
        let head = encode_scalar(scalar);
        assert(forall|i: int| 0 <= i < head.len() ==> head[i] != 0xffu8);
        assert(encode_utf8(chars) == head + encode_utf8(chars.drop_first()));
    }
}

/// The bytes that hashing an optional text writes.
spec fn text_bytes(text: Option<Seq<char>>, big_endian: bool) -> Seq<u8> {
    match text {
        Some(text) => usize_bytes(1, big_endian) + (encode_utf8(text) + seq![0xffu8]),
        None => usize_bytes(0, big_endian),
    }
}

/// The bytes that the serialized EVM options write.
spec fn blob_bytes(blob: Option<Seq<u8>>, big_endian: bool) -> Seq<u8> {
    match blob {
        Some(blob) => usize_bytes(blob.len(), big_endian) + blob,
        None => Seq::empty(),
    }
}

/// The writes for a text and the bytes they amount to.
proof fn lemma_text_writes(text: Option<Seq<char>>, big_endian: bool)
    ensures
        text_writes(text, big_endian).flatten() == text_bytes(text, big_endian),
{
    reveal_with_fuel(Seq::<_>::flatten, 4);
    let writes = text_writes(text, big_endian);
    match text {
        Some(text) => {
            assert(writes.drop_first().first() == encode_utf8(text));
            assert(writes.drop_first().drop_first().first() == seq![0xffu8]);
            assert(writes.drop_first().drop_first().drop_first() =~= Seq::empty());
            assert(writes.flatten() =~= text_bytes(Some(text), big_endian));
        },
        None => {
            assert(writes.drop_first() =~= Seq::empty());
            assert(writes.flatten() =~= text_bytes(None, big_endian));
        },
    }
}

/// Where two texts, each followed by the terminator, start the same bytes, they are the same
/// text.
proof fn lemma_terminated_text(a: Seq<char>, b: Seq<char>, after_a: Seq<u8>, after_b: Seq<u8>)
    requires
        encode_utf8(a) + seq![0xffu8] + after_a == encode_utf8(b) + seq![0xffu8] + after_b,
    ensures
        a == b,
        after_a == after_b,
{
    let left = encode_utf8(a) + seq![0xffu8] + after_a;
    let right = encode_utf8(b) + seq![0xffu8] + after_b;
    let len_a = encode_utf8(a).len() as int;
    let len_b = encode_utf8(b).len() as int;
    lemma_utf8_has_no_terminator(a);
    lemma_utf8_has_no_terminator(b);
    assert(left[len_a] == 0xffu8);
    assert(right[len_b] == 0xffu8);
    if len_a < len_b {
        assert(right[len_a] == encode_utf8(b)[len_a]);
    }
    if len_b < len_a {
        assert(left[len_b] == encode_utf8(a)[len_b]);
    }
    assert(encode_utf8(a) =~= left.subrange(0, len_a));
    assert(encode_utf8(b) =~= right.subrange(0, len_b));
    assert(after_a =~= left.subrange(len_a + 1, left.len() as int));
    assert(after_b =~= right.subrange(len_b + 1, right.len() as int));
    encode_utf8_decode_utf8(a);
    encode_utf8_decode_utf8(b);
}

/// Where two optional texts start the same bytes, they are the same.
proof fn lemma_text_is_prefix_free(
    a: Option<Seq<char>>,
    b: Option<Seq<char>>,
    after_a: Seq<u8>,
    after_b: Seq<u8>,
    big_endian: bool,
)
    requires
        text_bytes(a, big_endian) + after_a == text_bytes(b, big_endian) + after_b,
    ensures
        a == b,
        after_a == after_b,
{
    lemma_variants_differ(big_endian);
    let zero = usize_bytes(0, big_endian);
    let one = usize_bytes(1, big_endian);
    let width = zero.len() as int;
    let left = text_bytes(a, big_endian) + after_a;
    let right = text_bytes(b, big_endian) + after_b;
    assert(left.subrange(0, width) =~= if a is Some { one } else { zero });
    assert(right.subrange(0, width) =~= if b is Some { one } else { zero });
    match (a, b) {
        (Some(text_a), Some(text_b)) => {
            assert(left.subrange(width, left.len() as int) =~= encode_utf8(text_a) + seq![0xffu8]
                + after_a);
            assert(right.subrange(width, right.len() as int) =~= encode_utf8(text_b) + seq![0xffu8]
                + after_b);
            lemma_terminated_text(text_a, text_b, after_a, after_b);
        },
        _ => {
            assert(left.subrange(width, left.len() as int) =~= after_a);
            assert(right.subrange(width, right.len() as int) =~= after_b);
        },
    }
}

/// The bytes from the isolation flag on.
spec fn closing_bytes(context: ContextView, big_endian: bool) -> Seq<u8> {
    seq![if context.isolate { 1u8 } else { 0u8 }] + blob_bytes(context.evm_opts, big_endian)
}

/// The bytes of a context, text by text.
spec fn context_bytes(context: ContextView, big_endian: bool) -> Seq<u8> {
    text_bytes(context.test_pattern, big_endian) + (text_bytes(
        context.test_pattern_inverse,
        big_endian,
    ) + (text_bytes(context.contract_pattern, big_endian) + (text_bytes(
        context.contract_pattern_inverse,
        big_endian,
    ) + (text_bytes(context.path_pattern, big_endian) + (text_bytes(
        context.path_pattern_inverse,
        big_endian,
    ) + closing_bytes(context, big_endian))))))
}

/// The writes for a context and the bytes they amount to.
proof fn lemma_context_writes(context: ContextView, big_endian: bool)
    ensures
        context_writes(context, big_endian).flatten() == context_bytes(context, big_endian),
{
    let t1 = text_writes(context.test_pattern, big_endian);
    let t2 = text_writes(context.test_pattern_inverse, big_endian);
    let t3 = text_writes(context.contract_pattern, big_endian);
    let t4 = text_writes(context.contract_pattern_inverse, big_endian);
    let t5 = text_writes(context.path_pattern, big_endian);
    let t6 = text_writes(context.path_pattern_inverse, big_endian);
    let flag = flag_writes(context.isolate);
    let blob = blob_writes(context.evm_opts, big_endian);
    lemma_text_writes(context.test_pattern, big_endian);
    lemma_text_writes(context.test_pattern_inverse, big_endian);
    lemma_text_writes(context.contract_pattern, big_endian);
    lemma_text_writes(context.contract_pattern_inverse, big_endian);
    lemma_text_writes(context.path_pattern, big_endian);
    lemma_text_writes(context.path_pattern_inverse, big_endian);
    flag.lemma_flatten_one_element();
    assert(blob.flatten() =~= blob_bytes(context.evm_opts, big_endian)) by {
        reveal_with_fuel(Seq::<_>::flatten, 3);
        if context.evm_opts is Some {
            assert(blob.drop_first().first() == context.evm_opts->0);
            assert(blob.drop_first().drop_first() =~= Seq::empty());
        }
    }
    lemma_flatten_concat(t1, t2);
    lemma_flatten_concat(t1 + t2, t3);
    lemma_flatten_concat(t1 + t2 + t3, t4);
    lemma_flatten_concat(t1 + t2 + t3 + t4, t5);
    lemma_flatten_concat(t1 + t2 + t3 + t4 + t5, t6);
    lemma_flatten_concat(t1 + t2 + t3 + t4 + t5 + t6, flag);
    lemma_flatten_concat(t1 + t2 + t3 + t4 + t5 + t6 + flag, blob);
    let b1 = t1.flatten();
    let b2 = t2.flatten();
    let b3 = t3.flatten();
    let b4 = t4.flatten();
    let b5 = t5.flatten();
    let b6 = t6.flatten();
    let end = closing_bytes(context, big_endian);
    lemma_add_is_associative(b1 + b2 + b3 + b4 + b5 + b6, flag.flatten(), blob.flatten());
    lemma_add_is_associative(b1 + b2 + b3 + b4 + b5, b6, end);
    lemma_add_is_associative(b1 + b2 + b3 + b4, b5, b6 + end);
    lemma_add_is_associative(b1 + b2 + b3, b4, b5 + (b6 + end));
    lemma_add_is_associative(b1 + b2, b3, b4 + (b5 + (b6 + end)));
    lemma_add_is_associative(b1, b2, b3 + (b4 + (b5 + (b6 + end))));
}

/// Concatenation is associative.
proof fn lemma_add_is_associative(a: Seq<u8>, b: Seq<u8>, c: Seq<u8>)
    ensures
        (a + b) + c == a + (b + c),
{
    assert((a + b) + c =~= a + (b + c));
}

/// Two contexts that write the same bytes to the hasher are the same context: a run with
/// another test filter, another isolation flag or other EVM options never has the same hasher
/// input, and so reuses cached outcomes of the first only where the hash itself collides.
pub proof fn law_contexts_do_not_share_bytes(a: ContextView, b: ContextView, big_endian: bool)
    ensures
        context_writes(a, big_endian).flatten() == context_writes(b, big_endian).flatten()
            ==> a == b,
        context_writes(a, big_endian) == context_writes(b, big_endian) ==> a == b,
{
    lemma_context_writes(a, big_endian);
    lemma_context_writes(b, big_endian);
    if context_bytes(a, big_endian) == context_bytes(b, big_endian) {
        let end_a = closing_bytes(a, big_endian);
        let end_b = closing_bytes(b, big_endian);
        let a6 = text_bytes(a.path_pattern_inverse, big_endian) + end_a;
        let b6 = text_bytes(b.path_pattern_inverse, big_endian) + end_b;
        let a5 = text_bytes(a.path_pattern, big_endian) + a6;
        let b5 = text_bytes(b.path_pattern, big_endian) + b6;
        let a4 = text_bytes(a.contract_pattern_inverse, big_endian) + a5;
        let b4 = text_bytes(b.contract_pattern_inverse, big_endian) + b5;
        let a3 = text_bytes(a.contract_pattern, big_endian) + a4;
        let b3 = text_bytes(b.contract_pattern, big_endian) + b4;
        let a2 = text_bytes(a.test_pattern_inverse, big_endian) + a3;
        let b2 = text_bytes(b.test_pattern_inverse, big_endian) + b3;
        lemma_text_is_prefix_free(a.test_pattern, b.test_pattern, a2, b2, big_endian);
        lemma_text_is_prefix_free(
            a.test_pattern_inverse,
            b.test_pattern_inverse,
            a3,
            b3,
            big_endian,
        );
        lemma_text_is_prefix_free(a.contract_pattern, b.contract_pattern, a4, b4, big_endian);
        lemma_text_is_prefix_free(
            a.contract_pattern_inverse,
            b.contract_pattern_inverse,
            a5,
            b5,
            big_endian,
        );
        lemma_text_is_prefix_free(a.path_pattern, b.path_pattern, a6, b6, big_endian);
        lemma_text_is_prefix_free(
            a.path_pattern_inverse,
            b.path_pattern_inverse,
            end_a,
            end_b,
            big_endian,
        );
        lemma_closing_bytes(a, b, big_endian);
    }
}

/// Two contexts with the same closing bytes agree on the isolation flag and the EVM options.
proof fn lemma_closing_bytes(a: ContextView, b: ContextView, big_endian: bool)
    requires
        closing_bytes(a, big_endian) == closing_bytes(b, big_endian),
    ensures
        a.isolate == b.isolate,
        a.evm_opts == b.evm_opts,
{
    let left = closing_bytes(a, big_endian);
    let right = closing_bytes(b, big_endian);
    let width = (usize::BITS / 8) as nat;
    assert(left[0] == if a.isolate { 1u8 } else { 0u8 });
    assert(right[0] == if b.isolate { 1u8 } else { 0u8 });
    if let Some(blob) = a.evm_opts {
        lemma_le_bytes(blob.len(), width);
        assert(left.subrange((width + 1) as int, left.len() as int) =~= blob);
    }
    if let Some(blob) = b.evm_opts {
        lemma_le_bytes(blob.len(), width);
        assert(right.subrange((width + 1) as int, right.len() as int) =~= blob);
    }
}

/// What is hashed for a configuration tells its settings: two runs that write the same bytes to the
/// hasher have the same test filter, isolation flag and EVM options.
pub proof fn law_configurations_do_not_share_bytes(
    a: MutationRunConfig,
    opts_a: Option<Seq<u8>>,
    b: MutationRunConfig,
    opts_b: Option<Seq<u8>>,
    big_endian: bool,
)
    requires
        context_writes(context_of(a, opts_a), big_endian).flatten() == context_writes(
            context_of(b, opts_b),
            big_endian,
        ).flatten(),
    ensures
        a.filter_args.test_pattern is Some <==> b.filter_args.test_pattern is Some,
        a.filter_args.test_pattern is Some && b.filter_args.test_pattern is Some ==> regex_text(
            a.filter_args.test_pattern->0,
        ) == regex_text(b.filter_args.test_pattern->0),
        a.filter_args.test_pattern_inverse is Some <==> b.filter_args.test_pattern_inverse is Some,
        a.filter_args.test_pattern_inverse is Some && b.filter_args.test_pattern_inverse is Some ==> regex_text(
            a.filter_args.test_pattern_inverse->0,
        ) == regex_text(b.filter_args.test_pattern_inverse->0),
        a.filter_args.contract_pattern is Some <==> b.filter_args.contract_pattern is Some,
        a.filter_args.contract_pattern is Some && b.filter_args.contract_pattern is Some ==> regex_text(
            a.filter_args.contract_pattern->0,
        ) == regex_text(b.filter_args.contract_pattern->0),
        a.filter_args.contract_pattern_inverse is Some <==> b.filter_args.contract_pattern_inverse is Some,
        a.filter_args.contract_pattern_inverse is Some && b.filter_args.contract_pattern_inverse is Some ==> regex_text(
            a.filter_args.contract_pattern_inverse->0,
        ) == regex_text(b.filter_args.contract_pattern_inverse->0),
        a.filter_args.path_pattern is Some <==> b.filter_args.path_pattern is Some,
        a.filter_args.path_pattern is Some && b.filter_args.path_pattern is Some
            ==> a.filter_args.path_pattern->0.text@ == b.filter_args.path_pattern->0.text@,
        a.filter_args.path_pattern_inverse is Some <==> b.filter_args.path_pattern_inverse is Some,
        a.filter_args.path_pattern_inverse is Some && b.filter_args.path_pattern_inverse is Some
            ==> a.filter_args.path_pattern_inverse->0.text@ == b.filter_args.path_pattern_inverse->0.text@,
        a.isolate == b.isolate,
        opts_a == opts_b,
{
    law_contexts_do_not_share_bytes(context_of(a, opts_a), context_of(b, opts_b), big_endian);
}

/// Two runs with the same test filter, isolation flag and EVM options have the same digest,
/// whatever else sets them apart: a run finds what an earlier one kept.
pub proof fn law_same_settings_share_the_digest(
    a: MutationRunConfig,
    opts_a: Option<Seq<u8>>,
    b: MutationRunConfig,
    opts_b: Option<Seq<u8>>,
    big_endian: bool,
)
    requires
        a.filter_args.test_pattern is Some <==> b.filter_args.test_pattern is Some,
        a.filter_args.test_pattern is Some && b.filter_args.test_pattern is Some ==> regex_text(
            a.filter_args.test_pattern->0,
        ) == regex_text(b.filter_args.test_pattern->0),
        a.filter_args.test_pattern_inverse is Some <==> b.filter_args.test_pattern_inverse is Some,
        a.filter_args.test_pattern_inverse is Some && b.filter_args.test_pattern_inverse is Some ==> regex_text(
            a.filter_args.test_pattern_inverse->0,
        ) == regex_text(b.filter_args.test_pattern_inverse->0),
        a.filter_args.contract_pattern is Some <==> b.filter_args.contract_pattern is Some,
        a.filter_args.contract_pattern is Some && b.filter_args.contract_pattern is Some ==> regex_text(
            a.filter_args.contract_pattern->0,
        ) == regex_text(b.filter_args.contract_pattern->0),
        a.filter_args.contract_pattern_inverse is Some <==> b.filter_args.contract_pattern_inverse is Some,
        a.filter_args.contract_pattern_inverse is Some && b.filter_args.contract_pattern_inverse is Some ==> regex_text(
            a.filter_args.contract_pattern_inverse->0,
        ) == regex_text(b.filter_args.contract_pattern_inverse->0),
        a.filter_args.path_pattern is Some <==> b.filter_args.path_pattern is Some,
        a.filter_args.path_pattern is Some && b.filter_args.path_pattern is Some
            ==> a.filter_args.path_pattern->0.text@ == b.filter_args.path_pattern->0.text@,
        a.filter_args.path_pattern_inverse is Some <==> b.filter_args.path_pattern_inverse is Some,
        a.filter_args.path_pattern_inverse is Some && b.filter_args.path_pattern_inverse is Some
            ==> a.filter_args.path_pattern_inverse->0.text@ == b.filter_args.path_pattern_inverse->0.text@,
        a.isolate == b.isolate,
        opts_a == opts_b,
    ensures
        digest_of(a, opts_a, big_endian) == digest_of(b, opts_b, big_endian),
{
    assert(context_of(a, opts_a) =~= context_of(b, opts_b));
}

/// The digest is the hash of everything that is written for the configuration and the EVM
/// options: each pattern in turn, the isolation flag and the options. A pattern is written as its
/// presence and, where it is there, its UTF-8 bytes and a byte that ends them; the options as
/// their length and their bytes.
pub proof fn law_digests_are_hashes_of_the_settings(
    mutation_config: MutationRunConfig,
    evm_opts: Option<Seq<u8>>,
    context: ContextView,
    text: Seq<char>,
    blob: Seq<u8>,
    big_endian: bool,
)
    ensures
        digest_of(mutation_config, evm_opts, big_endian) == DefaultHasher::spec_finish(
            context_writes(context_of(mutation_config, evm_opts), big_endian),
        ),
        context_writes(context, big_endian) == text_writes(context.test_pattern, big_endian)
            + text_writes(context.test_pattern_inverse, big_endian)
            + text_writes(context.contract_pattern, big_endian)
            + text_writes(context.contract_pattern_inverse, big_endian)
            + text_writes(context.path_pattern, big_endian)
            + text_writes(context.path_pattern_inverse, big_endian)
            + seq![seq![if context.isolate { 1u8 } else { 0u8 }]]
            + blob_writes(context.evm_opts, big_endian),
        text_writes(None, big_endian) == seq![usize_bytes(0, big_endian)],
        text_writes(Some(text), big_endian) == seq![
            usize_bytes(1, big_endian),
            encode_utf8(text),
            seq![0xffu8],
        ],
        blob_writes(None, big_endian) == Seq::<Seq<u8>>::empty(),
        blob_writes(Some(blob), big_endian) == seq![usize_bytes(blob.len(), big_endian), blob],
{
}

/// A byte of a number written from its least significant end.
proof fn lemma_byte_of_number(value: nat, width: nat, i: nat)
    requires
        i < width,
    ensures
        le_bytes(value, width).len() == width,
        le_bytes(value, width)[i as int] == (value as int / pow(256, i)) % 256,
    decreases i,
{
    lemma_le_bytes(value, width);
    if i == 0 {
        lemma_pow0(256);
    } else {
        let before = (i - 1) as nat;
        lemma_byte_of_number(value / 256, (width - 1) as nat, before);
        lemma_pow_positive(256, before);
        assert(pow(256, i) == 256 * pow(256, before)) by {
            reveal(pow);
        }
        lemma_div_denominator(value as int, 256, pow(256, before));
    }
}

/// A number is written in as many bytes as it has in memory, which are its digits to the base
/// 256, from the least significant on or from the most significant on.
pub proof fn law_numbers_are_written_digit_by_digit(value: nat, i: nat)
    requires
        i < usize::BITS / 8,
    ensures
        usize_bytes(value, false).len() == usize::BITS / 8,
        usize_bytes(value, true).len() == usize::BITS / 8,
        usize_bytes(value, false)[i as int] == (value as int / pow(256, i)) % 256,
        usize_bytes(value, true)[usize::BITS / 8 - 1 - i] == (value as int / pow(256, i)) % 256,
{
    lemma_byte_of_number(value, (usize::BITS / 8) as nat, i);
}

/// A context holds what its fields hold.
pub proof fn law_contexts_are_their_fields(context: RuntimeContext)
    ensures
        context@.test_pattern is Some <==> context.test_pattern is Some,
        context.test_pattern matches Some(text) ==> context@.test_pattern == Some(text@),
        context@.test_pattern_inverse is Some <==> context.test_pattern_inverse is Some,
        context.test_pattern_inverse matches Some(text) ==> context@.test_pattern_inverse == Some(text@),
        context@.contract_pattern is Some <==> context.contract_pattern is Some,
        context.contract_pattern matches Some(text) ==> context@.contract_pattern == Some(text@),
        context@.contract_pattern_inverse is Some <==> context.contract_pattern_inverse is Some,
        context.contract_pattern_inverse matches Some(text) ==> context@.contract_pattern_inverse == Some(text@),
        context@.path_pattern is Some <==> context.path_pattern is Some,
        context.path_pattern matches Some(text) ==> context@.path_pattern == Some(text@),
        context@.path_pattern_inverse is Some <==> context.path_pattern_inverse is Some,
        context.path_pattern_inverse matches Some(text) ==> context@.path_pattern_inverse == Some(text@),
        context@.isolate == context.isolate,
        context@.evm_opts is Some <==> context.evm_opts is Some,
        context.evm_opts matches Some(blob) ==> context@.evm_opts == Some(blob@),
{
}

/// The bytes of an optional blob are there where the blob is, and are its bytes.
pub proof fn law_optional_bytes(blob: &Vec<u8>)
    ensures
        optional_bytes(None) is None,
        optional_bytes(Some(blob)) == Some(blob@),
{
}

/// The context of a run holds each pattern of the test filter by its text and in its place, the
/// isolation flag, and the EVM options as they are.
pub proof fn law_contexts_hold_the_configuration(
    mutation_config: MutationRunConfig,
    evm_opts: Option<Seq<u8>>,
)
    ensures
        ({
            let context = context_of(mutation_config, evm_opts);
            let filter = mutation_config.filter_args;
            &&& context.test_pattern is Some <==> filter.test_pattern is Some
            &&& filter.test_pattern matches Some(pattern) ==> context.test_pattern == Some(
                regex_text(pattern),
            )
            &&& context.test_pattern_inverse is Some <==> filter.test_pattern_inverse is Some
            &&& filter.test_pattern_inverse matches Some(pattern) ==> context.test_pattern_inverse == Some(
                regex_text(pattern),
            )
            &&& context.contract_pattern is Some <==> filter.contract_pattern is Some
            &&& filter.contract_pattern matches Some(pattern) ==> context.contract_pattern == Some(
                regex_text(pattern),
            )
            &&& context.contract_pattern_inverse is Some <==> filter.contract_pattern_inverse is Some
            &&& filter.contract_pattern_inverse matches Some(pattern) ==> context.contract_pattern_inverse == Some(
                regex_text(pattern),
            )
            &&& context.path_pattern is Some <==> filter.path_pattern is Some
            &&& filter.path_pattern matches Some(pattern) ==> context.path_pattern == Some(
                pattern.text@,
            )
            &&& context.path_pattern_inverse is Some <==> filter.path_pattern_inverse is Some
            &&& filter.path_pattern_inverse matches Some(pattern) ==> context.path_pattern_inverse == Some(
                pattern.text@,
            )
            &&& context.isolate == mutation_config.isolate
            &&& context.evm_opts == evm_opts
        }),
{
}

} // verus!
