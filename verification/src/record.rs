use csv::StringRecord;
use vstd::prelude::*;

verus! {

/// One record of a table, as the `csv` crate holds it. Nothing inside it is
/// visible to the proofs.
#[verifier::external_type_specification]
#[verifier::external_body]
pub struct ExStringRecord(csv::StringRecord);

/// The fields that a record holds, in order.
pub uninterp spec fn record_fields(record: StringRecord) -> Seq<Seq<char>>;

/// `StringRecord::len` gives the number of fields in the record. Believed, not
/// proved.
pub assume_specification[ StringRecord::len ](record: &StringRecord) -> (count: usize)
    ensures
        count == record_fields(*record).len(),
;

/// `StringRecord::get` gives the field at position `i`, and `None` where the
/// record has no field there. Believed, not proved.
pub assume_specification[ StringRecord::get ](record: &StringRecord, i: usize) -> (field: Option<
    &str,
>)
    ensures
        field is Some <==> i < record_fields(*record).len(),
        field matches Some(text) ==> text@ == record_fields(*record)[i as int],
;

} // verus!
