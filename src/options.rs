//! The decoder's directives, from the user's independent toggles.

use vstd::prelude::*;

verus! {

/// One thing the decoder is asked to do.
#[derive(Clone, Copy, Debug, PartialEq, Eq)]
pub enum DecodeDirective {
    DropUnknownFields,
    DropUnknownMessages,
    UseGenericSubFieldName,
    KeepCompositeFields,
    ReturnNumericEnumValues,
    SkipHeaderCrcValidation,
    SkipDataCrcValidation,
}

/// The user's decode toggles; each is independent of the others.
#[derive(Clone, Copy, Debug)]
pub struct DecodeOptions {
    pub drop_unknown: bool,
    pub numeric_enums: bool,
    pub keep_generic_names: bool,
    pub keep_composite_fields: bool,
    pub no_crc_check: bool,
}

/// `s` when `on`, else nothing.
pub open spec fn when(on: bool, s: Seq<DecodeDirective>) -> Seq<DecodeDirective> {
    if on {
        s
    } else {
        Seq::empty()
    }
}

impl DecodeOptions {
    /// The directives these toggles ask for.
    pub open spec fn spec_directives(&self) -> Seq<DecodeDirective> {
        when(
            self.drop_unknown,
            seq![DecodeDirective::DropUnknownFields, DecodeDirective::DropUnknownMessages],
        ) + when(self.keep_generic_names, seq![DecodeDirective::UseGenericSubFieldName]) + when(
            self.keep_composite_fields,
            seq![DecodeDirective::KeepCompositeFields],
        ) + when(self.numeric_enums, seq![DecodeDirective::ReturnNumericEnumValues]) + when(
            self.no_crc_check,
            seq![DecodeDirective::SkipHeaderCrcValidation, DecodeDirective::SkipDataCrcValidation],
        )
    }

    /// The directives to hand to the decoder: unknown fields and messages are
    /// dropped together, and both checksums are skipped together.
    pub fn directives(&self) -> (r: Vec<DecodeDirective>)
        ensures
            r@ == self.spec_directives(),
    {
        let mut r: Vec<DecodeDirective> = Vec::new();
        if self.drop_unknown {
            r.push(DecodeDirective::DropUnknownFields);
            r.push(DecodeDirective::DropUnknownMessages);
        }
        let ghost a = r@;
        if self.keep_generic_names {
            r.push(DecodeDirective::UseGenericSubFieldName);
        }
        let ghost b = r@;
        if self.keep_composite_fields {
            r.push(DecodeDirective::KeepCompositeFields);
        }
        let ghost c = r@;
        if self.numeric_enums {
            r.push(DecodeDirective::ReturnNumericEnumValues);
        }
        let ghost d = r@;
        if self.no_crc_check {
            r.push(DecodeDirective::SkipHeaderCrcValidation);
            r.push(DecodeDirective::SkipDataCrcValidation);
        }
        proof {
            assert(a =~= when(
                self.drop_unknown,
                seq![DecodeDirective::DropUnknownFields, DecodeDirective::DropUnknownMessages],
            ));
            assert(b =~= a + when(self.keep_generic_names, seq![DecodeDirective::UseGenericSubFieldName]));
            assert(c =~= b + when(self.keep_composite_fields, seq![DecodeDirective::KeepCompositeFields]));
            assert(d =~= c + when(self.numeric_enums, seq![DecodeDirective::ReturnNumericEnumValues]));
            assert(r@ =~= d + when(
                self.no_crc_check,
                seq![DecodeDirective::SkipHeaderCrcValidation, DecodeDirective::SkipDataCrcValidation],
            ));
        }
        r
    }
}

} // verus!
