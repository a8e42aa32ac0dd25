//! The fingerprint of the linter configuration: a hash of all that is
//! configured of all linters, by which a change of the configuration is
//! noticed.
//!
//! The configuration is written as a sequence of 32-bit words, the
//! characters of each text followed by a mark that no character equals, and
//! the words are hashed one by one with the 64-bit FNV-1a function.

use vstd::prelude::*;
use crate::ledger::ConfigFingerprint;
use crate::registry::{LinterModel, LinterSpec};
use crate::text::chars_of;

verus! {

/// The value that the hash starts from.
pub const FNV_OFFSET: u64 = 0xcbf29ce484222325;

/// The factor of each step of the hash.
pub const FNV_PRIME: u64 = 0x100000001b3;

/// The word that ends a text.
pub const END_OF_TEXT: u32 = 0x110000;

/// The word that ends a list of texts.
pub const END_OF_LIST: u32 = 0x110001;

/// One step of the hash: the word is mixed in, and the result multiplied,
/// modulo 2 to the 64th.
pub open spec fn mix(hash: u64, word: u32) -> u64 {
    (((hash ^ (word as u64)) as nat * FNV_PRIME as nat) % 0x1_0000_0000_0000_0000) as u64
}

/// The hash `hash` after the words have gone into it, in their order.
pub open spec fn absorbed(hash: u64, words: Seq<u32>) -> u64
    decreases words.len(),
{
    if words.len() == 0 {
        hash
    } else {
        mix(absorbed(hash, words.drop_last()), words.last())
    }
}

/// The words of a text: its characters as numbers, and the mark of its end.
pub open spec fn text_words(text: Seq<char>) -> Seq<u32> {
    text.map_values(|c: char| c as u32).push(END_OF_TEXT)
}

/// The words of a list of texts: those of each text, and the mark of the
/// end of the list.
pub open spec fn list_body_words(list: Seq<Seq<char>>) -> Seq<u32>
    decreases list.len(),
{
    if list.len() == 0 {
        Seq::empty()
    } else {
        list_body_words(list.drop_last()) + text_words(list.last())
    }
}

/// The words of a list of texts, the mark of its end included.
pub open spec fn list_words(list: Seq<Seq<char>>) -> Seq<u32> {
    list_body_words(list).push(END_OF_LIST)
}

/// The word for a flag.
pub open spec fn flag_word(flag: bool) -> u32 {
    if flag {
        1
    } else {
        0
    }
}

/// The words of one linter: all that is configured of it.
pub open spec fn linter_words(linter: LinterModel) -> Seq<u32> {
    text_words(linter.name) + text_words(linter.command) + text_words(linter.init_command)
        + list_words(linter.include_globs) + list_words(linter.exclude_globs) + seq![
        flag_word(linter.is_formatter),
    ]
}

/// The words of the configuration: those of each linter, in the order of
/// their registration.
pub open spec fn config_words(linters: Seq<LinterModel>) -> Seq<u32>
    decreases linters.len(),
{
    if linters.len() == 0 {
        Seq::empty()
    } else {
        config_words(linters.drop_last()) + linter_words(linters.last())
    }
}

/// The fingerprint of the configuration.
pub open spec fn fingerprint_of(linters: Seq<LinterModel>) -> u64 {
    absorbed(FNV_OFFSET, config_words(linters))
}

/// Words that go in one after the other go in as one sequence.
pub proof fn lemma_absorbed_concat(hash: u64, a: Seq<u32>, b: Seq<u32>)
    ensures
        absorbed(hash, a + b) == absorbed(absorbed(hash, a), b),
    decreases b.len(),
{
    if b.len() == 0 {
        assert(a + b =~= a);
    } else {
        lemma_absorbed_concat(hash, a, b.drop_last());
        assert((a + b).drop_last() =~= a + b.drop_last());
        assert((a + b).last() == b.last());
    }
}

/// One word goes into the hash.
fn absorb_word(hash: u64, word: u32) -> (out: u64)
    ensures
        out == absorbed(hash, seq![word]),
{
    let ghost one = seq![word];
    assert(one.drop_last() =~= Seq::<u32>::empty());
    assert(absorbed(hash, one.drop_last()) == hash);
    (hash ^ (word as u64)).wrapping_mul(FNV_PRIME)
}

/// A text goes into the hash.
fn absorb_text(hash: u64, text: &str) -> (out: u64)
    ensures
        out == absorbed(hash, text_words(text@)),
{
    let chars = chars_of(text);
    let mut h = hash;
    let mut i: usize = 0;
    let ghost codes = chars@.map_values(|c: char| c as u32);
    assert(codes.take(0) =~= Seq::<u32>::empty());
    while i < chars.len()
        invariant
            i <= chars.len(),
            codes == chars@.map_values(|c: char| c as u32),
            h == absorbed(hash, codes.take(i as int)),
        decreases chars.len() - i,
    {
        let word = chars[i] as u32;
        proof {
            lemma_absorbed_concat(hash, codes.take(i as int), seq![word]);
            assert(codes.take(i + 1) =~= codes.take(i as int) + seq![word]);
        }
        h = absorb_word(h, word);
        i += 1;
    }
    proof {
        assert(codes.take(i as int) =~= codes);
        lemma_absorbed_concat(hash, codes, seq![END_OF_TEXT]);
        assert(text_words(text@) =~= codes + seq![END_OF_TEXT]);
    }
    absorb_word(h, END_OF_TEXT)
}

/// A list of texts goes into the hash.
fn absorb_list(hash: u64, list: &Vec<String>) -> (out: u64)
    ensures
        out == absorbed(hash, list_words(list.deep_view())),
{
    let mut h = hash;
    let mut i: usize = 0;
    assert(list_body_words(list.deep_view().take(0)) =~= Seq::<u32>::empty());
    while i < list.len()
        invariant
            i <= list.len(),
            h == absorbed(hash, list_body_words(list.deep_view().take(i as int))),
        decreases list.len() - i,
    {
        proof {
            let done = list.deep_view().take(i as int);
            let next = list.deep_view().take(i + 1);
            assert(next.drop_last() =~= done);
            assert(next.last() == list[i as int]@);
            lemma_absorbed_concat(hash, list_body_words(done), text_words(list[i as int]@));
        }
        h = absorb_text(h, list[i].as_str());
        i += 1;
    }
    proof {
        assert(list.deep_view().take(i as int) =~= list.deep_view());
        let body = list_body_words(list.deep_view());
        lemma_absorbed_concat(hash, body, seq![END_OF_LIST]);
        assert(list_words(list.deep_view()) =~= body + seq![END_OF_LIST]);
    }
    absorb_word(h, END_OF_LIST)
}

/// All that is configured of one linter goes into the hash.
fn absorb_linter(hash: u64, linter: &LinterSpec) -> (out: u64)
    ensures
        out == absorbed(hash, linter_words(linter@)),
{
    let h1 = absorb_text(hash, linter.name.as_str());
    let h2 = absorb_text(h1, linter.command.as_str());
    let h3 = absorb_text(h2, linter.init_command.as_str());
    let h4 = absorb_list(h3, &linter.include_globs);
    let h5 = absorb_list(h4, &linter.exclude_globs);
    let flag: u32 = if linter.is_formatter {
        1
    } else {
        0
    };
    let h6 = absorb_word(h5, flag);
    proof {
        let m = linter@;
        let w1 = text_words(m.name);
        let w2 = w1 + text_words(m.command);
        let w3 = w2 + text_words(m.init_command);
        let w4 = w3 + list_words(m.include_globs);
        let w5 = w4 + list_words(m.exclude_globs);
        lemma_absorbed_concat(hash, w1, text_words(m.command));
        lemma_absorbed_concat(hash, w2, text_words(m.init_command));
        lemma_absorbed_concat(hash, w3, list_words(m.include_globs));
        lemma_absorbed_concat(hash, w4, list_words(m.exclude_globs));
        lemma_absorbed_concat(hash, w5, seq![flag_word(m.is_formatter)]);
    }
    h6
}

/// The fingerprint of the configuration `linters`. It depends on the
/// configuration alone: the same linters, in the same order, give the same
/// fingerprint.
pub fn fingerprint(linters: &Vec<LinterSpec>) -> (out: ConfigFingerprint)
    ensures
        out.digest == fingerprint_of(linters.deep_view()),
{
    let mut h = FNV_OFFSET;
    let mut i: usize = 0;
    assert(config_words(linters.deep_view().take(0)) =~= Seq::<u32>::empty());
    while i < linters.len()
        invariant
            i <= linters.len(),
            h == absorbed(FNV_OFFSET, config_words(linters.deep_view().take(i as int))),
        decreases linters.len() - i,
    {
        proof {
            let done = linters.deep_view().take(i as int);
            let next = linters.deep_view().take(i + 1);
            assert(next.drop_last() =~= done);
            assert(next.last() == linters[i as int]@);
            lemma_absorbed_concat(FNV_OFFSET, config_words(done), linter_words(linters[i as int]@));
        }
        h = absorb_linter(h, &linters[i]);
        i += 1;
    }
    assert(linters.deep_view().take(i as int) =~= linters.deep_view());
    ConfigFingerprint { digest: h }
}

} // verus!
