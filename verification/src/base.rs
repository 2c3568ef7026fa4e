//! The basic values: formats, protocols, object keys, partitions, buckets and sizes.

use crate::text::{find_char, first_index_of, str_eq};
use vstd::prelude::*;
use vstd::std_specs::cmp::PartialEqSpecImpl;

verus! {

/// The file formats an object can be stored in.
#[derive(Clone, Copy, Debug, PartialEq, Eq, Structural)]
pub enum Format {
    Csv,
    Parquet,
}

impl Format {
    /// The lower-case name of the format, which is also its file extension.
    pub open spec fn spec_name(self) -> Seq<char> {
        match self {
            Format::Csv => seq!['c', 's', 'v'],
            Format::Parquet => seq!['p', 'a', 'r', 'q', 'u', 'e', 't'],
        }
    }

    /// The format that a file extension selects, if any.
    pub open spec fn spec_from_extension(extension: Seq<char>) -> Option<Format> {
        if extension == Format::Csv.spec_name() {
            Some(Format::Csv)
        } else if extension == Format::Parquet.spec_name() {
            Some(Format::Parquet)
        } else {
            None
        }
    }

    pub fn name(self) -> (r: &'static str)
        ensures
            r@ == self.spec_name(),
    {
        proof {
            reveal_strlit("csv");
            reveal_strlit("parquet");
        }
        let r = match self {
            Format::Csv => "csv",
            Format::Parquet => "parquet",
        };
        assert(r@ =~= self.spec_name());
        r
    }

    pub fn to_string(self) -> (r: String)
        ensures
            r@ == self.spec_name(),
    {
        self.name().to_owned()
    }

    pub fn from_extension(extension: &str) -> (r: Option<Format>)
        ensures
            r == Format::spec_from_extension(extension@),
    {
        if str_eq(extension, Format::Csv.name()) {
            Some(Format::Csv)
        } else if str_eq(extension, Format::Parquet.name()) {
            Some(Format::Parquet)
        } else {
            None
        }
    }
}

/// The compression applied to a stored object.
#[derive(Clone, Copy, Debug, PartialEq, Eq, Structural)]
pub enum Compression {
    Uncompressed,
    Gzip,
    Snappy,
}

/// The kind of store a bucket lives in.
#[derive(Clone, Copy, Debug, PartialEq, Eq, Hash, Structural)]
pub enum Protocol {
    File,
    S3,
}

impl Protocol {
    pub open spec fn spec_name(self) -> Seq<char> {
        match self {
            Protocol::File => seq!['f', 'i', 'l', 'e'],
            Protocol::S3 => seq!['s', '3'],
        }
    }

    pub fn name(self) -> (r: &'static str)
        ensures
            r@ == self.spec_name(),
    {
        proof {
            reveal_strlit("file");
            reveal_strlit("s3");
        }
        let r = match self {
            Protocol::File => "file",
            Protocol::S3 => "s3",
        };
        assert(r@ =~= self.spec_name());
        r
    }

    pub fn to_string(self) -> (r: String)
        ensures
            r@ == self.spec_name(),
    {
        self.name().to_owned()
    }
}

/// The name of an object inside a partition.
#[derive(Debug, Eq, Hash)]
pub struct ObjectKey(String);

impl PartialEq for ObjectKey {
    fn eq(&self, other: &Self) -> (r: bool) {
        self.0 == other.0
    }
}

impl PartialEqSpecImpl for ObjectKey {
    open spec fn obeys_eq_spec() -> bool {
        true
    }

    open spec fn eq_spec(&self, other: &Self) -> bool {
        self@ == other@
    }
}

impl View for ObjectKey {
    type V = Seq<char>;

    closed spec fn view(&self) -> Seq<char> {
        self.0@
    }
}

impl Clone for ObjectKey {
    fn clone(&self) -> (r: Self)
        ensures
            r@ == self@,
    {
        ObjectKey(self.0.clone())
    }
}

impl ObjectKey {
    /// What follows the first `.` of the key, if the key has one.
    pub open spec fn spec_extension(key: Seq<char>) -> Option<Seq<char>> {
        let dot = first_index_of(key, '.');
        if dot < key.len() {
            Some(key.subrange(dot + 1, key.len() as int))
        } else {
            None
        }
    }

    pub fn new(key: String) -> (r: ObjectKey)
        ensures
            r@ == key@,
    {
        ObjectKey(key)
    }

    pub fn as_str(&self) -> (r: &str)
        ensures
            r@ == self@,
    {
        self.0.as_str()
    }

    pub fn to_string(&self) -> (r: String)
        ensures
            r@ == self@,
    {
        self.0.clone()
    }

    pub fn extension(&self) -> (r: Option<&str>)
        ensures
            match r {
                Some(e) => ObjectKey::spec_extension(self@) == Some(e@),
                None => ObjectKey::spec_extension(self@) is None,
            },
    {
        let s = self.0.as_str();
        match find_char(s, '.') {
            Some(dot) => {
                let n = s.unicode_len();
                Some(s.substring_char(dot + 1, n))
            },
            None => {
                proof {
                    crate::text::lemma_first_index_of(s@, '.');
                }
                None
            },
        }
    }
}

/// The text of `key=value` pairs, each pair written `key=value`, pairs separated by `/`.
pub open spec fn pairs_text(pairs: Seq<(Seq<char>, Seq<char>)>) -> Seq<char>
    decreases pairs.len(),
{
    if pairs.len() == 0 {
        Seq::empty()
    } else if pairs.len() == 1 {
        pairs[0].0 + seq!['='] + pairs[0].1
    } else {
        pairs_text(pairs.drop_last()) + seq!['/'] + pairs.last().0 + seq!['='] + pairs.last().1
    }
}

/// An ordered, non-empty list of `key=value` pairs that names a partition.
#[derive(Debug, Eq, Hash)]
pub struct Partition {
    values: Vec<(String, String)>,
}

impl PartialEq for Partition {
    fn eq(&self, other: &Self) -> (r: bool) {
        if self.values.len() != other.values.len() {
            assert(self@.len() != other@.len());
            return false;
        }
        let mut i: usize = 0;
        while i < self.values.len()
            invariant
                i <= self.values.len(),
                self.values.len() == other.values.len(),
                forall|j: int| 0 <= j < i ==> self@[j] == other@[j],
            decreases self.values.len() - i,
        {
            if !(self.values[i].0 == other.values[i].0 && self.values[i].1 == other.values[i].1) {
                assert(self@[i as int] != other@[i as int]);
                return false;
            }
            i += 1;
        }
        assert(self@ =~= other@);
        true
    }
}

impl PartialEqSpecImpl for Partition {
    open spec fn obeys_eq_spec() -> bool {
        true
    }

    open spec fn eq_spec(&self, other: &Self) -> bool {
        self@ == other@
    }
}

impl View for Partition {
    type V = Seq<(Seq<char>, Seq<char>)>;

    closed spec fn view(&self) -> Self::V {
        Seq::new(self.values@.len(), |i: int| (self.values@[i].0@, self.values@[i].1@))
    }
}

impl Clone for Partition {
    fn clone(&self) -> (r: Self)
        ensures
            r@ == self@,
    {
        proof {
            use_type_invariant(self);
        }
        let mut values: Vec<(String, String)> = Vec::new();
        let mut i: usize = 0;
        while i < self.values.len()
            invariant
                i <= self.values.len(),
                values@.len() == i,
                forall|j: int|
                    0 <= j < i ==> values@[j].0@ == self.values@[j].0@ && values@[j].1@
                        == self.values@[j].1@,
            decreases self.values.len() - i,
        {
            values.push((self.values[i].0.clone(), self.values[i].1.clone()));
            i += 1;
        }
        let r = Partition { values };
        assert(r@ =~= self@);
        r
    }
}

impl Partition {
    #[verifier::type_invariant]
    spec fn non_empty(self) -> bool {
        self.values@.len() >= 1
    }

    /// The number of pairs, which is never zero.
    pub fn len(&self) -> (r: usize)
        ensures
            r == self@.len(),
            r >= 1,
    {
        proof {
            use_type_invariant(self);
        }
        self.values.len()
    }

    pub fn new(key: &str, value: &str) -> (r: Partition)
        ensures
            r@ == seq![(key@, value@)],
    {
        let mut values: Vec<(String, String)> = Vec::new();
        values.push((key.to_owned(), value.to_owned()));
        let r = Partition { values };
        assert(r@ =~= seq![(key@, value@)]);
        r
    }

    /// The key and the value of the pair at `index`.
    pub fn pair(&self, index: usize) -> (r: (&str, &str))
        requires
            index < self@.len(),
        ensures
            r.0@ == self@[index as int].0,
            r.1@ == self@[index as int].1,
    {
        (self.values[index].0.as_str(), self.values[index].1.as_str())
    }

    pub fn push(&self, key: String, value: String) -> (r: Partition)
        ensures
            r@ == self@.push((key@, value@)),
    {
        let Partition { mut values } = self.clone();
        values.push((key, value));
        let r = Partition { values };
        assert(r@ =~= self@.push((key@, value@)));
        r
    }

    pub fn to_string(&self) -> (r: String)
        ensures
            r@ == pairs_text(self@),
    {
        proof {
            use_type_invariant(self);
            reveal_strlit("=");
            reveal_strlit("/");
        }
        let mut out = String::new();
        let mut i: usize = 0;
        while i < self.values.len()
            invariant
                i <= self.values.len(),
                "="@ == seq!['='],
                "/"@ == seq!['/'],
                out@ == pairs_text(self@.take(i as int)),
            decreases self.values.len() - i,
        {
            if i > 0 {
                out.append("/");
            }
            out.append(self.values[i].0.as_str());
            out.append("=");
            out.append(self.values[i].1.as_str());
            proof {
                let next = self@.take(i + 1);
                assert(next.drop_last() =~= self@.take(i as int));
                assert(next.last() == self@[i as int]);
                if i == 0 {
                    assert(out@ =~= pairs_text(next));
                } else {
                    assert(out@ =~= pairs_text(next));
                }
            }
            i += 1;
        }
        assert(self@.take(i as int) =~= self@);
        out
    }
}

/// What a bucket is, as plain values.
pub struct BucketView {
    pub protocol: Protocol,
    pub name: Seq<char>,
}

/// A named container of datasets in some store.
#[derive(Debug, Eq, Hash)]
pub struct Bucket {
    pub protocol: Protocol,
    pub name: String,
}

impl PartialEq for Bucket {
    fn eq(&self, other: &Self) -> (r: bool) {
        self.protocol == other.protocol && self.name == other.name
    }
}

impl PartialEqSpecImpl for Bucket {
    open spec fn obeys_eq_spec() -> bool {
        true
    }

    open spec fn eq_spec(&self, other: &Self) -> bool {
        self@ == other@
    }
}

impl View for Bucket {
    type V = BucketView;

    open spec fn view(&self) -> BucketView {
        BucketView { protocol: self.protocol, name: self.name@ }
    }
}

impl Clone for Bucket {
    fn clone(&self) -> (r: Self)
        ensures
            r@ == self@,
    {
        Bucket { protocol: self.protocol, name: self.name.clone() }
    }
}

/// The text of a bucket: protocol, `://`, name.
pub open spec fn bucket_text(bucket: BucketView) -> Seq<char> {
    bucket.protocol.spec_name() + seq![':', '/', '/'] + bucket.name
}

impl Bucket {
    pub fn new(protocol: Protocol, name: String) -> (r: Bucket)
        ensures
            r.protocol == protocol,
            r.name == name,
    {
        Bucket { protocol, name }
    }

    pub fn to_string(&self) -> (r: String)
        ensures
            r@ == bucket_text(self@),
    {
        proof {
            reveal_strlit("://");
        }
        let mut out = self.protocol.to_string();
        out.append("://");
        out.append(self.name.as_str());
        assert(out@ =~= bucket_text(self@));
        out
    }
}

/// A size in bytes.
#[derive(Debug, Clone, Copy, PartialEq, Eq)]
pub struct Bytes(usize);

impl View for Bytes {
    type V = nat;

    closed spec fn view(&self) -> nat {
        self.0 as nat
    }
}

impl core::ops::Add for Bytes {
    type Output = Bytes;

    fn add(self, other: Bytes) -> (r: Bytes) {
        Bytes(self.0 + other.0)
    }
}

impl vstd::std_specs::ops::AddSpecImpl for Bytes {
    open spec fn obeys_add_spec() -> bool {
        true
    }

    open spec fn add_req(self, other: Bytes) -> bool {
        self@ + other@ <= usize::MAX
    }

    open spec fn add_spec(self, other: Bytes) -> Bytes {
        Bytes::spec_new((self@ + other@) as usize)
    }
}

pub const KIB: usize = 1024;

pub const MIB: usize = 1048576;

/// The unit in which a size is printed.
#[derive(Debug, Clone, Copy, PartialEq, Eq, Structural)]
pub enum Unit {
    Byte,
    Kib,
    Mib,
}

impl Bytes {
    /// The size of `size` bytes.
    pub closed spec fn spec_new(size: usize) -> Bytes {
        Bytes(size)
    }

    pub fn new(size: usize) -> (r: Bytes)
        ensures
            r == Bytes::spec_new(size),
            r@ == size,
    {
        Bytes(size)
    }

    pub fn new_in_mib(size: usize) -> (r: Bytes)
        requires
            size * MIB <= usize::MAX,
        ensures
            r@ == size * MIB,
    {
        Bytes(size * MIB)
    }

    pub fn as_usize(&self) -> (r: usize)
        ensures
            r == self@,
    {
        self.0
    }

    /// The unit in which a size of `size` bytes is printed: MiB above ten MiB, KiB above ten
    /// KiB, else bytes.
    pub open spec fn spec_unit(size: nat) -> Unit {
        if size > 10 * MIB {
            Unit::Mib
        } else if size > 10 * KIB {
            Unit::Kib
        } else {
            Unit::Byte
        }
    }

    pub fn unit(&self) -> (r: Unit)
        ensures
            r == Bytes::spec_unit(self@),
    {
        if self.0 > 10 * MIB {
            Unit::Mib
        } else if self.0 > 10 * KIB {
            Unit::Kib
        } else {
            Unit::Byte
        }
    }

    /// The size of `size` bytes holds `size` bytes.
    pub proof fn lemma_spec_new(size: usize)
        ensures
            Bytes::spec_new(size)@ == size,
    {
    }

    /// A size fits the machine's integers.
    pub proof fn lemma_fits(self)
        ensures
            self@ <= usize::MAX,
    {
    }

    /// Two sizes with the same number of bytes are the same size.
    pub proof fn lemma_view_injective(a: Bytes, b: Bytes)
        requires
            a@ == b@,
        ensures
            a == b,
    {
    }
}

/// A piece of text that a job hands out.
#[derive(Debug, PartialEq, Eq, Hash)]
pub struct Output(String);

impl View for Output {
    type V = Seq<char>;

    closed spec fn view(&self) -> Seq<char> {
        self.0@
    }
}

impl Clone for Output {
    fn clone(&self) -> (r: Self)
        ensures
            r@ == self@,
    {
        Output(self.0.clone())
    }
}

impl Output {
    pub fn new(text: String) -> (r: Output)
        ensures
            r@ == text@,
    {
        Output(text)
    }

    pub fn to_string(&self) -> (r: String)
        ensures
            r@ == self@,
    {
        self.0.clone()
    }
}

} // verus!
