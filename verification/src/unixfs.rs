//! The messages that describe a file system node inside a block: `Data`, with
//! its node type, and `Metadata`. Every optional field is either set or
//! unset; an unset field reads as its default value.

#![allow(non_camel_case_types)]
#![allow(non_snake_case)]

use vstd::prelude::*;

verus! {

/// The kind of node that a `Data` message describes.
#[derive(Clone, Copy, PartialEq, Eq, Debug, Hash, Structural)]
pub enum Data_DataType {
    Raw,
    Directory,
    File,
    Metadata,
    Symlink,
    HAMTShard,
}

impl Data_DataType {
    /// The number that stands for the node type on the wire.
    pub open spec fn number(self) -> i32 {
        match self {
            Data_DataType::Raw => 0,
            Data_DataType::Directory => 1,
            Data_DataType::File => 2,
            Data_DataType::Metadata => 3,
            Data_DataType::Symlink => 4,
            Data_DataType::HAMTShard => 5,
        }
    }

    /// The number that stands for the node type on the wire.
    pub fn value(&self) -> (r: i32)
        ensures
            r == self.number(),
    {
        match self {
            Data_DataType::Raw => 0,
            Data_DataType::Directory => 1,
            Data_DataType::File => 2,
            Data_DataType::Metadata => 3,
            Data_DataType::Symlink => 4,
            Data_DataType::HAMTShard => 5,
        }
    }

    /// The node type that `value` stands for, if it stands for one.
    pub fn from_i32(value: i32) -> (r: Option<Data_DataType>)
        ensures
            0 <= value <= 5 <==> r is Some,
            r is Some ==> r->0.number() == value,
    {
        match value {
            0 => Some(Data_DataType::Raw),
            1 => Some(Data_DataType::Directory),
            2 => Some(Data_DataType::File),
            3 => Some(Data_DataType::Metadata),
            4 => Some(Data_DataType::Symlink),
            5 => Some(Data_DataType::HAMTShard),
            _ => None,
        }
    }

    /// All node types, in the order of their numbers.
    pub fn values() -> (r: Vec<Data_DataType>)
        ensures
            r@.len() == 6,
            forall|i: int| 0 <= i < 6 ==> (#[trigger] r@[i]).number() == i,
    {
        let mut all: Vec<Data_DataType> = Vec::new();
        all.push(Data_DataType::Raw);
        all.push(Data_DataType::Directory);
        all.push(Data_DataType::File);
        all.push(Data_DataType::Metadata);
        all.push(Data_DataType::Symlink);
        all.push(Data_DataType::HAMTShard);
        all
    }
}

impl Default for Data_DataType {
    /// The node type that an unset field reads as.
    fn default() -> (r: Data_DataType)
        ensures
            r == Data_DataType::Raw,
    {
        Data_DataType::Raw
    }
}

/// Every node type is known by its number, and `from_i32` undoes `value`.
pub proof fn lemma_data_type_numbers(a: Data_DataType, b: Data_DataType)
    ensures
        0 <= a.number() <= 5,
        a.number() == b.number() ==> a == b,
{
}

/// A `Data` message as contracts see it.
pub struct DataView {
    pub data_type: Option<Data_DataType>,
    pub data: Option<Seq<u8>>,
    pub filesize: Option<u64>,
    pub blocksizes: Seq<u64>,
    pub hash_type: Option<u64>,
    pub fanout: Option<u64>,
}

impl DataView {
    /// The message in which nothing is set.
    pub open spec fn empty() -> DataView {
        DataView {
            data_type: None,
            data: None,
            filesize: None,
            blocksizes: Seq::empty(),
            hash_type: None,
            fanout: None,
        }
    }

    /// The message with another node type.
    pub open spec fn with_data_type(self, data_type: Option<Data_DataType>) -> DataView {
        DataView {
            data_type,
            data: self.data,
            filesize: self.filesize,
            blocksizes: self.blocksizes,
            hash_type: self.hash_type,
            fanout: self.fanout,
        }
    }

    /// The message with other bytes.
    pub open spec fn with_data(self, data: Option<Seq<u8>>) -> DataView {
        DataView {
            data_type: self.data_type,
            data,
            filesize: self.filesize,
            blocksizes: self.blocksizes,
            hash_type: self.hash_type,
            fanout: self.fanout,
        }
    }

    /// The message with another file size.
    pub open spec fn with_filesize(self, filesize: Option<u64>) -> DataView {
        DataView {
            data_type: self.data_type,
            data: self.data,
            filesize,
            blocksizes: self.blocksizes,
            hash_type: self.hash_type,
            fanout: self.fanout,
        }
    }

    /// The message with other block sizes.
    pub open spec fn with_blocksizes(self, blocksizes: Seq<u64>) -> DataView {
        DataView {
            data_type: self.data_type,
            data: self.data,
            filesize: self.filesize,
            blocksizes,
            hash_type: self.hash_type,
            fanout: self.fanout,
        }
    }

    /// The message with another hash function.
    pub open spec fn with_hash_type(self, hash_type: Option<u64>) -> DataView {
        DataView {
            data_type: self.data_type,
            data: self.data,
            filesize: self.filesize,
            blocksizes: self.blocksizes,
            hash_type,
            fanout: self.fanout,
        }
    }

    /// The message with another fanout.
    pub open spec fn with_fanout(self, fanout: Option<u64>) -> DataView {
        DataView {
            data_type: self.data_type,
            data: self.data,
            filesize: self.filesize,
            blocksizes: self.blocksizes,
            hash_type: self.hash_type,
            fanout,
        }
    }

    /// The bytes of the message, none where they are unset.
    pub open spec fn data_or_empty(self) -> Seq<u8> {
        match self.data {
            Some(d) => d,
            None => Seq::empty(),
        }
    }
}

/// A number as it reads where it may be unset.
pub open spec fn or_zero(v: Option<u64>) -> u64 {
    match v {
        Some(v) => v,
        None => 0,
    }
}

/// The description of a file system node.
#[derive(Clone, PartialEq, Debug)]
pub struct Data {
    Type: Option<Data_DataType>,
    Data: Option<Vec<u8>>,
    filesize: Option<u64>,
    pub blocksizes: Vec<u64>,
    hashType: Option<u64>,
    fanout: Option<u64>,
}

impl View for Data {
    type V = DataView;

    closed spec fn view(&self) -> DataView {
        DataView {
            data_type: self.Type,
            data: match self.Data {
                Some(d) => Some(d@),
                None => None,
            },
            filesize: self.filesize,
            blocksizes: self.blocksizes@,
            hash_type: self.hashType,
            fanout: self.fanout,
        }
    }
}

impl Default for Data {
    /// A message in which nothing is set.
    fn default() -> (r: Data)
        ensures
            r@ == DataView::empty(),
    {
        Data::new()
    }
}

impl Data {
    /// A message in which nothing is set.
    pub fn new() -> (r: Data)
        ensures
            r@ == DataView::empty(),
    {
        Data {
            Type: None,
            Data: None,
            filesize: None,
            blocksizes: Vec::new(),
            hashType: None,
            fanout: None,
        }
    }

    /// The node type is required: a message is complete once it is set.
    pub fn is_initialized(&self) -> (r: bool)
        ensures
            r == self@.data_type is Some,
    {
        self.Type.is_some()
    }

    /// Unsets every field.
    pub fn clear(&mut self)
        ensures
            final(self)@ == DataView::empty(),
    {
        self.Type = None;
        self.Data = None;
        self.filesize = None;
        self.blocksizes.clear();
        self.hashType = None;
        self.fanout = None;
    }

    /// The node type; `Raw` where it is unset.
    pub fn get_Type(&self) -> (r: Data_DataType)
        ensures
            r == match self@.data_type {
                Some(t) => t,
                None => Data_DataType::Raw,
            },
    {
        match self.Type {
            Some(t) => t,
            None => Data_DataType::Raw,
        }
    }

    /// Unsets the node type.
    pub fn clear_Type(&mut self)
        ensures
            final(self)@ == old(self)@.with_data_type(None),
    {
        self.Type = None;
    }

    /// Whether the node type is set.
    pub fn has_Type(&self) -> (r: bool)
        ensures
            r == self@.data_type is Some,
    {
        self.Type.is_some()
    }

    /// Sets the node type.
    pub fn set_Type(&mut self, v: Data_DataType)
        ensures
            final(self)@ == old(self)@.with_data_type(Some(v)),
    {
        self.Type = Some(v);
    }

    /// The bytes; none where they are unset.
    pub fn get_Data(&self) -> (r: &[u8])
        ensures
            r@ == self@.data_or_empty(),
    {
        match &self.Data {
            Some(v) => v.as_slice(),
            None => &[],
        }
    }

    /// Unsets the bytes.
    pub fn clear_Data(&mut self)
        ensures
            final(self)@ == old(self)@.with_data(None),
    {
        self.Data = None;
    }

    /// Whether the bytes are set.
    pub fn has_Data(&self) -> (r: bool)
        ensures
            r == self@.data is Some,
    {
        self.Data.is_some()
    }

    /// Sets the bytes.
    pub fn set_Data(&mut self, v: Vec<u8>)
        ensures
            final(self)@ == old(self)@.with_data(Some(v@)),
    {
        self.Data = Some(v);
    }

    /// The bytes, to be changed in place. Bytes that were unset are set, to
    /// none, before they are handed out.
    pub fn mut_Data(&mut self) -> (r: &mut Vec<u8>)
        ensures
            r@ == old(self)@.data_or_empty(),
            final(self)@ == old(self)@.with_data(Some(final(r)@)),
    {
        if self.Data.is_none() {
            self.Data = Some(Vec::new());
        }
        self.Data.as_mut().unwrap()
    }

    /// Takes the bytes out of the message and leaves them unset.
    pub fn take_Data(&mut self) -> (r: Vec<u8>)
        ensures
            r@ == old(self)@.data_or_empty(),
            final(self)@ == old(self)@.with_data(None),
    {
        match self.Data.take() {
            Some(v) => v,
            None => Vec::new(),
        }
    }

    /// The size of the file; zero where it is unset.
    pub fn get_filesize(&self) -> (r: u64)
        ensures
            r == or_zero(self@.filesize),
    {
        match self.filesize {
            Some(v) => v,
            None => 0,
        }
    }

    /// Unsets the size of the file.
    pub fn clear_filesize(&mut self)
        ensures
            final(self)@ == old(self)@.with_filesize(None),
    {
        self.filesize = None;
    }

    /// Whether the size of the file is set.
    pub fn has_filesize(&self) -> (r: bool)
        ensures
            r == self@.filesize is Some,
    {
        self.filesize.is_some()
    }

    /// Sets the size of the file.
    pub fn set_filesize(&mut self, v: u64)
        ensures
            final(self)@ == old(self)@.with_filesize(Some(v)),
    {
        self.filesize = Some(v);
    }

    /// The sizes of the blocks.
    pub fn get_blocksizes(&self) -> (r: &[u64])
        ensures
            r@ == self@.blocksizes,
    {
        self.blocksizes.as_slice()
    }

    /// Leaves no block sizes.
    pub fn clear_blocksizes(&mut self)
        ensures
            final(self)@ == old(self)@.with_blocksizes(Seq::empty()),
    {
        self.blocksizes.clear();
    }

    /// Sets the sizes of the blocks.
    pub fn set_blocksizes(&mut self, v: Vec<u64>)
        ensures
            final(self)@ == old(self)@.with_blocksizes(v@),
    {
        self.blocksizes = v;
    }

    /// The block sizes, to be changed in place.
    pub fn mut_blocksizes(&mut self) -> (r: &mut Vec<u64>)
        ensures
            r@ == old(self)@.blocksizes,
            final(self)@ == old(self)@.with_blocksizes(final(r)@),
    {
        &mut self.blocksizes
    }

    /// Takes the block sizes out of the message and leaves none.
    pub fn take_blocksizes(&mut self) -> (r: Vec<u64>)
        ensures
            r@ == old(self)@.blocksizes,
            final(self)@ == old(self)@.with_blocksizes(Seq::empty()),
    {
        let mut taken: Vec<u64> = Vec::new();
        std::mem::swap(&mut taken, &mut self.blocksizes);
        taken
    }

    /// The hash function; zero where it is unset.
    pub fn get_hashType(&self) -> (r: u64)
        ensures
            r == or_zero(self@.hash_type),
    {
        match self.hashType {
            Some(v) => v,
            None => 0,
        }
    }

    /// Unsets the hash function.
    pub fn clear_hashType(&mut self)
        ensures
            final(self)@ == old(self)@.with_hash_type(None),
    {
        self.hashType = None;
    }

    /// Whether the hash function is set.
    pub fn has_hashType(&self) -> (r: bool)
        ensures
            r == self@.hash_type is Some,
    {
        self.hashType.is_some()
    }

    /// Sets the hash function.
    pub fn set_hashType(&mut self, v: u64)
        ensures
            final(self)@ == old(self)@.with_hash_type(Some(v)),
    {
        self.hashType = Some(v);
    }

    /// The fanout; zero where it is unset.
    pub fn get_fanout(&self) -> (r: u64)
        ensures
            r == or_zero(self@.fanout),
    {
        match self.fanout {
            Some(v) => v,
            None => 0,
        }
    }

    /// Unsets the fanout.
    pub fn clear_fanout(&mut self)
        ensures
            final(self)@ == old(self)@.with_fanout(None),
    {
        self.fanout = None;
    }

    /// Whether the fanout is set.
    pub fn has_fanout(&self) -> (r: bool)
        ensures
            r == self@.fanout is Some,
    {
        self.fanout.is_some()
    }

    /// Sets the fanout.
    pub fn set_fanout(&mut self, v: u64)
        ensures
            final(self)@ == old(self)@.with_fanout(Some(v)),
    {
        self.fanout = Some(v);
    }
}

/// The text as it reads where it may be unset.
pub open spec fn or_empty(v: Option<Seq<char>>) -> Seq<char> {
    match v {
        Some(v) => v,
        None => Seq::empty(),
    }
}

/// What is known about a file beyond its content.
#[derive(Clone, PartialEq, Debug)]
pub struct Metadata {
    MimeType: Option<String>,
}

impl View for Metadata {
    /// The MIME type, where it is set.
    type V = Option<Seq<char>>;

    closed spec fn view(&self) -> Option<Seq<char>> {
        match self.MimeType {
            Some(s) => Some(s@),
            None => None,
        }
    }
}

impl Default for Metadata {
    /// A message in which nothing is set.
    fn default() -> (r: Metadata)
        ensures
            r@ is None,
    {
        Metadata::new()
    }
}

impl Metadata {
    /// A message in which nothing is set.
    pub fn new() -> (r: Metadata)
        ensures
            r@ is None,
    {
        Metadata { MimeType: None }
    }

    /// No field is required: every message is complete.
    pub fn is_initialized(&self) -> (r: bool)
        ensures
            r,
    {
        true
    }

    /// Unsets every field.
    pub fn clear(&mut self)
        ensures
            final(self)@ is None,
    {
        self.MimeType = None;
    }

    /// The MIME type; the empty string where it is unset.
    pub fn get_MimeType(&self) -> (r: &str)
        ensures
            r@ == or_empty(self@),
    {
        match &self.MimeType {
            Some(v) => v.as_str(),
            None => {
                proof {
                    reveal_strlit("");
                }
                assert(""@ =~= Seq::<char>::empty());
                ""
            },
        }
    }

    /// Unsets the MIME type.
    pub fn clear_MimeType(&mut self)
        ensures
            final(self)@ is None,
    {
        self.MimeType = None;
    }

    /// Whether the MIME type is set.
    pub fn has_MimeType(&self) -> (r: bool)
        ensures
            r == self@ is Some,
    {
        self.MimeType.is_some()
    }

    /// Sets the MIME type.
    pub fn set_MimeType(&mut self, v: String)
        ensures
            final(self)@ == Some(v@),
    {
        self.MimeType = Some(v);
    }

    /// The MIME type, to be changed in place. A type that was unset is set,
    /// to the empty string, before it is handed out.
    pub fn mut_MimeType(&mut self) -> (r: &mut String)
        ensures
            r@ == or_empty(old(self)@),
            final(self)@ == Some(final(r)@),
    {
        if self.MimeType.is_none() {
            self.MimeType = Some(String::new());
        }
        self.MimeType.as_mut().unwrap()
    }

    /// Takes the MIME type out of the message and leaves it unset.
    pub fn take_MimeType(&mut self) -> (r: String)
        ensures
            r@ == or_empty(old(self)@),
            final(self)@ is None,
    {
        match self.MimeType.take() {
            Some(v) => v,
            None => String::new(),
        }
    }
}

} // verus!
