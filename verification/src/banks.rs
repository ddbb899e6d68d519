//! The five shard schemas as types: each names its file prefix inside an
//! archive and its human-readable name.

use vstd::prelude::*;

verus! {

/// A shard schema: its entry filename prefix and its display name.
pub trait IsYomitanSchema {
    spec fn spec_schema_prefix() -> Seq<char>;

    spec fn spec_schema_name() -> Seq<char>;

    fn get_schema_prefix() -> (r: &'static str)
        ensures
            r@ == Self::spec_schema_prefix(),
    ;

    fn get_schema_name() -> (r: &'static str)
        ensures
            r@ == Self::spec_schema_name(),
    ;
}

pub type TermBankV3 = Vec<crate::term_bank::TermEntry>;

pub type TagBankV3 = Vec<crate::tag_bank::TagEntry>;

pub type TermMetaBankV3 = Vec<crate::term_meta_bank::TermMetaEntry>;

pub type KanjiBankV3 = Vec<crate::kanji_bank::KanjiEntry>;

pub type KanjiMetaBankV3 = Vec<crate::kanji_meta_bank::KanjiMetaEntry>;

impl IsYomitanSchema for TermBankV3 {
    open spec fn spec_schema_prefix() -> Seq<char> {
        "term_bank_"@
    }

    open spec fn spec_schema_name() -> Seq<char> {
        "Term Bank V3"@
    }

    fn get_schema_prefix() -> (r: &'static str) {
        "term_bank_"
    }

    fn get_schema_name() -> (r: &'static str) {
        "Term Bank V3"
    }
}

impl IsYomitanSchema for TagBankV3 {
    open spec fn spec_schema_prefix() -> Seq<char> {
        "tag_bank_"@
    }

    open spec fn spec_schema_name() -> Seq<char> {
        "Tag Bank V3"@
    }

    fn get_schema_prefix() -> (r: &'static str) {
        "tag_bank_"
    }

    fn get_schema_name() -> (r: &'static str) {
        "Tag Bank V3"
    }
}

impl IsYomitanSchema for TermMetaBankV3 {
    open spec fn spec_schema_prefix() -> Seq<char> {
        "term_meta_bank_"@
    }

    open spec fn spec_schema_name() -> Seq<char> {
        "Term Meta Bank V3"@
    }

    fn get_schema_prefix() -> (r: &'static str) {
        "term_meta_bank_"
    }

    fn get_schema_name() -> (r: &'static str) {
        "Term Meta Bank V3"
    }
}

impl IsYomitanSchema for KanjiBankV3 {
    open spec fn spec_schema_prefix() -> Seq<char> {
        "kanji_bank_"@
    }

    open spec fn spec_schema_name() -> Seq<char> {
        "Kanji Bank V3"@
    }

    fn get_schema_prefix() -> (r: &'static str) {
        "kanji_bank_"
    }

    fn get_schema_name() -> (r: &'static str) {
        "Kanji Bank V3"
    }
}

impl IsYomitanSchema for KanjiMetaBankV3 {
    open spec fn spec_schema_prefix() -> Seq<char> {
        "kanji_meta_bank_"@
    }

    open spec fn spec_schema_name() -> Seq<char> {
        "Kanji Meta Bank V3"@
    }

    fn get_schema_prefix() -> (r: &'static str) {
        "kanji_meta_bank_"
    }

    fn get_schema_name() -> (r: &'static str) {
        "Kanji Meta Bank V3"
    }
}

} // verus!
