//! Domain names as plain labels, and what the DNS library computes on them.
use crate::text::split_on;
use hickory_proto::error::ProtoError;
use hickory_proto::rr::Name;
use std::str::FromStr;
use vstd::prelude::*;

verus! {

/// The error of the DNS library: carried, never looked into.
#[verifier::external_type_specification]
#[verifier::external_body]
pub struct ExProtoError(ProtoError);

/// A domain name: its labels, the leftmost first, and whether it was written as fully qualified.
#[derive(Debug)]
pub struct DomainName {
    pub labels: Vec<Vec<u8>>,
    pub fqdn: bool,
}

/// The mathematical content of a [`DomainName`].
#[verifier::ext_equal]
pub struct NameView {
    pub labels: Seq<Seq<u8>>,
    pub fqdn: bool,
}

impl View for DomainName {
    type V = NameView;

    open spec fn view(&self) -> NameView {
        NameView { labels: self.labels@.map_values(|l: Vec<u8>| l@), fqdn: self.fqdn }
    }
}

/// How many bytes the labels hold together.
pub open spec fn label_bytes(labels: Seq<Seq<u8>>) -> nat
    decreases labels.len(),
{
    if labels.len() == 0 {
        0
    } else {
        label_bytes(labels.drop_last()) + labels.last().len()
    }
}

/// The length of a name: its bytes and one dot for each label, the root counting as one dot.
pub open spec fn name_len(labels: Seq<Seq<u8>>) -> nat {
    label_bytes(labels) + if labels.len() == 0 {
        1
    } else {
        labels.len()
    }
}

/// Whether a name of these labels exists: every label holds 1 to 63 bytes and the name is at most
/// 255 long.
pub open spec fn valid_labels(labels: Seq<Seq<u8>>) -> bool {
    &&& forall|i: int| 0 <= i < labels.len() ==> 1 <= (#[trigger] labels[i]).len() <= 63
    &&& name_len(labels) <= 255
}

/// An ASCII byte in lower case; every other byte as it is.
pub open spec fn lower_byte(b: u8) -> u8 {
    if 65 <= b <= 90 {
        (b + 32) as u8
    } else {
        b
    }
}

/// The labels with every byte in lower case.
pub open spec fn lower_labels(labels: Seq<Seq<u8>>) -> Seq<Seq<u8>> {
    labels.map_values(|l: Seq<u8>| l.map_values(|b: u8| lower_byte(b)))
}

impl NameView {
    pub open spec fn valid(self) -> bool {
        valid_labels(self.labels)
    }
}

/// What `Name::from_str` makes of a text: the labels and whether they are fully qualified, or the
/// error with which it refuses the text.
pub uninterp spec fn parsed_name(text: Seq<char>) -> Result<NameView, ProtoError>;

/// What `Display` writes for a name.
pub uninterp spec fn name_text(name: NameView) -> Seq<char>;

/// Whether `text` is made of labels of 1 to 63 lower case ASCII letters with single dots between
/// them, and is short enough for a name.
pub open spec fn is_plain_text(text: Seq<char>) -> bool {
    &&& text.len() <= 254
    &&& forall|i: int|
        0 <= i < split_on(text, '.').len() ==> 1 <= (#[trigger] split_on(text, '.')[i]).len() <= 63
    &&& forall|i: int|
        0 <= i < text.len() ==> (#[trigger] text[i] == '.' || 'a' <= text[i] <= 'z')
}

/// The name that a plain text stands for.
pub open spec fn plain_name(text: Seq<char>) -> NameView {
    NameView {
        labels: split_on(text, '.').map_values(|l: Seq<char>| l.map_values(|c: char| c as u8)),
        fqdn: false,
    }
}

/// `Name::from_str`: the result, error or not, is a function of the text, every name is valid,
/// and a text of plain lower case labels stands for those labels, not fully qualified.
#[verifier::external_body]
fn name_from_str(text: &str) -> (r: Result<DomainName, ProtoError>)
    ensures
        r is Ok <==> parsed_name(text@) is Ok,
        r is Ok ==> r->Ok_0@ == parsed_name(text@)->Ok_0 && r->Ok_0@.valid(),
        r is Err ==> r->Err_0 == parsed_name(text@)->Err_0,
        is_plain_text(text@) ==> r is Ok && r->Ok_0@ == plain_name(text@),
{
    let name = Name::from_str(text)?;
    Ok(DomainName { labels: name.iter().map(|l| l.to_vec()).collect(), fqdn: name.is_fqdn() })
}

/// `Display` of a `Name`: the text is a function of the labels and of the fully qualified mark.
#[verifier::external_body]
fn name_to_string(name: &DomainName) -> (r: String)
    requires
        name@.valid(),
    ensures
        r@ == name_text(name@),
{
    let mut outside = Name::from_labels(name.labels.iter().map(|l| l.as_slice())).unwrap();
    outside.set_fqdn(name.fqdn);
    outside.to_string()
}

/// `Name::append_domain`: the labels of both names in order, marked as fully qualified, or an error
/// where the result is longer than a name may be.
#[verifier::external_body]
fn name_append_domain(prefix: &DomainName, domain: &DomainName) -> (r: Result<
    DomainName,
    ProtoError,
>)
    requires
        prefix@.valid(),
        domain@.valid(),
    ensures
        r is Ok <==> name_len(prefix@.labels + domain@.labels) <= 255,
        r matches Ok(name) ==> name@ == (NameView {
            labels: prefix@.labels + domain@.labels,
            fqdn: true,
        }),
{
    let front = Name::from_labels(prefix.labels.iter().map(|l| l.as_slice()))?;
    let back = Name::from_labels(domain.labels.iter().map(|l| l.as_slice()))?;
    let name = front.append_domain(&back)?;
    Ok(DomainName { labels: name.iter().map(|l| l.to_vec()).collect(), fqdn: name.is_fqdn() })
}

impl Clone for DomainName {
    fn clone(&self) -> (r: Self)
        ensures
            r@ == self@,
    {
        let mut labels: Vec<Vec<u8>> = Vec::new();
        for i in 0..self.labels.len()
            invariant
                labels@.len() == i,
                forall|k: int| 0 <= k < i ==> (#[trigger] labels@[k])@ == self.labels@[k]@,
        {
            labels.push(self.labels[i].clone());
        }
        let r = DomainName { labels, fqdn: self.fqdn };
        assert(r@.labels == self@.labels);
        r
    }
}

impl DomainName {
    /// Reads a name out of its text.
    pub fn parse(text: &str) -> (r: Result<DomainName, ProtoError>)
        ensures
            r is Ok <==> parsed_name(text@) is Ok,
            r is Ok ==> r->Ok_0@ == parsed_name(text@)->Ok_0 && r->Ok_0@.valid(),
        r is Err ==> r->Err_0 == parsed_name(text@)->Err_0,
            is_plain_text(text@) ==> r is Ok && r->Ok_0@ == plain_name(text@),
    {
        name_from_str(text)
    }

    /// The text of the name.
    pub fn text(&self) -> (r: String)
        requires
            self@.valid(),
        ensures
            r@ == name_text(self@),
    {
        name_to_string(self)
    }

    /// This name below `domain`, fully qualified.
    pub fn append_domain(&self, domain: &DomainName) -> (r: Result<DomainName, ProtoError>)
        requires
            self@.valid(),
            domain@.valid(),
        ensures
            r is Ok <==> name_len(self@.labels + domain@.labels) <= 255,
            r matches Ok(name) ==> name@ == (NameView {
                labels: self@.labels + domain@.labels,
                fqdn: true,
            }),
            r matches Ok(name) ==> name@.valid(),
    {
        let r = name_append_domain(self, domain);
        proof {
            let labels = self@.labels + domain@.labels;
            assert forall|i: int| 0 <= i < labels.len() implies 1 <= (#[trigger] labels[i]).len()
                <= 63 by {
                if i < self@.labels.len() {
                    assert(labels[i] == self@.labels[i]);
                } else {
                    assert(labels[i] == domain@.labels[i - self@.labels.len()]);
                }
            }
        }
        r
    }
}

/// The view of a name holds the bytes of each label, in order, and the mark.
pub proof fn law_name_view_is_faithful(name: DomainName)
    ensures
        name@.labels.len() == name.labels@.len(),
        forall|i: int| 0 <= i < name.labels@.len() ==> #[trigger] name@.labels[i] == name.labels@[i]@,
        name@.fqdn == name.fqdn,
{
}

/// Lower case changes the letters from A to Z, each into its small letter, and no other byte.
pub proof fn law_lower_labels(labels: Seq<Seq<u8>>, i: int, j: int)
    requires
        0 <= i < labels.len(),
        0 <= j < labels[i].len(),
    ensures
        lower_labels(labels).len() == labels.len(),
        lower_labels(labels)[i].len() == labels[i].len(),
        65 <= labels[i][j] <= 90 ==> lower_labels(labels)[i][j] == labels[i][j] + 32,
        !(65 <= labels[i][j] <= 90) ==> lower_labels(labels)[i][j] == labels[i][j],
{
}

/// The bytes of names that are put one before the other add up, and those of one label are its own.
pub proof fn law_name_lengths_add_up(front: Seq<Seq<u8>>, back: Seq<Seq<u8>>)
    ensures
        label_bytes(front + back) == label_bytes(front) + label_bytes(back),
        front.len() == 0 ==> label_bytes(front) == 0,
        front.len() == 1 ==> label_bytes(front) == front[0].len(),
    decreases back.len(),
{
    if front.len() == 1 {
        assert(label_bytes(front.drop_last()) == 0);
    }
    if back.len() == 0 {
        assert(front + back == front);
    } else {
        law_name_lengths_add_up(front, back.drop_last());
        assert((front + back).drop_last() == front + back.drop_last());
    }
}

/// A name exists exactly if none of its labels is empty or holds more than 63 bytes, and its bytes and
/// one dot for each label, or for the root, count at most 255.
pub proof fn law_valid_names(name: NameView)
    ensures
        name.valid() <==> {
            &&& forall|i: int|
                0 <= i < name.labels.len() ==> 1 <= (#[trigger] name.labels[i]).len() <= 63
            &&& name.labels.len() > 0 ==> label_bytes(name.labels) + name.labels.len() <= 255
        },
        name.valid() == valid_labels(name.labels),
        name.labels.len() == 0 ==> name.valid(),
{
}

/// A plain text is made of small letters and dots, its parts between the dots are neither empty nor
/// longer than a label, and it writes these parts, letter by letter, as a name that is not fully
/// qualified.
pub proof fn law_plain_texts_write_their_parts(text: Seq<char>)
    ensures
        is_plain_text(text) <==> {
            &&& text.len() <= 254
            &&& forall|i: int|
                0 <= i < text.len() ==> (#[trigger] text[i]) == '.' || 'a' <= text[i] <= 'z'
            &&& forall|i: int|
                0 <= i < split_on(text, '.').len() ==> 1 <= (#[trigger] split_on(text, '.')[i]).len()
                    <= 63
        },
        plain_name(text).labels.len() == split_on(text, '.').len(),
        !plain_name(text).fqdn,
        forall|i: int, k: int|
            0 <= i < split_on(text, '.').len() && 0 <= k < split_on(text, '.')[i].len()
                ==> plain_name(text).labels[i].len() == split_on(text, '.')[i].len()
                && #[trigger] plain_name(text).labels[i][k] == split_on(text, '.')[i][k] as u8,
{
}

} // verus!
