use vstd::prelude::*;

verus! {

/// A single label attached to a blob's metadata.
#[derive(Debug, Clone, PartialEq, Eq)]
pub struct Tag(String);

impl View for Tag {
    type V = Seq<char>;

    closed spec fn view(&self) -> Seq<char> {
        self.0@
    }
}

impl Tag {
    pub fn new(text: String) -> (t: Tag)
        ensures
            t@ == text@,
    {
        Tag(text)
    }

    pub fn text(&self) -> (r: &String)
        ensures
            r@ == self@,
    {
        &self.0
    }
}

/// The views of a sequence of tags, in order.
pub open spec fn tag_views(tags: Seq<Tag>) -> Seq<Seq<char>> {
    tags.map_values(|t: Tag| t@)
}

/// The mathematical value of a `Metadata`: its attributes as plain sequences
/// and an integer timestamp in milliseconds since the Unix epoch.
pub struct MetadataView {
    pub file_name: Seq<char>,
    pub extension: Seq<char>,
    pub tags: Seq<Seq<char>>,
    pub timestamp: int,
}

/// Immutable description of a stored blob: a name, an extension, a set of
/// tags and a creation instant with millisecond precision.
#[derive(Debug, PartialEq, Eq)]
pub struct Metadata {
    pub file_name: String,
    pub extension: String,
    pub tags: Vec<Tag>,
    pub timestamp: i64,
}

impl View for Metadata {
    type V = MetadataView;

    open spec fn view(&self) -> MetadataView {
        MetadataView {
            file_name: self.file_name@,
            extension: self.extension@,
            tags: tag_views(self.tags@),
            timestamp: self.timestamp as int,
        }
    }
}

/// A well-formed metadata value carries a non-empty name and extension.
pub open spec fn metadata_wf(m: MetadataView) -> bool {
    m.file_name.len() > 0 && m.extension.len() > 0
}

/// The mathematical value of a `Blob`.
pub struct BlobView {
    pub metadata: MetadataView,
    pub data: Seq<u8>,
}

/// The unit moved across the store boundary: a byte payload and its metadata.
#[derive(Debug, PartialEq, Eq)]
pub struct Blob {
    pub metadata: Metadata,
    pub data: Vec<u8>,
}

impl View for Blob {
    type V = BlobView;

    open spec fn view(&self) -> BlobView {
        BlobView { metadata: self.metadata@, data: self.data@ }
    }
}

/// The state of a `MetadataBuilder`: the required attributes and the
/// optional ones that have been supplied so far.
pub struct BuilderView {
    pub file_name: Seq<char>,
    pub extension: Seq<char>,
    pub tags: Option<Seq<Seq<char>>>,
    pub timestamp: Option<int>,
}

/// Staged construction of a `Metadata`: the name and extension are required
/// up front, tags and timestamp may be supplied before `build` finalizes the
/// value. Unset fields fall back to an empty tag list and the instant at
/// which `build` runs.
pub struct MetadataBuilder {
    file_name: String,
    extension: String,
    tags: Option<Vec<Tag>>,
    timestamp: Option<i64>,
}

/// Relies on chrono's conversion from the system clock and its
/// `timestamp_millis` for the current wall-clock instant in milliseconds
/// since the Unix epoch; the conversion handles a clock set before the
/// epoch without panicking. Nothing is assumed about the value read.
#[verifier::external_body]
fn now_millis() -> i64 {
    chrono::DateTime::<chrono::Utc>::from(std::time::SystemTime::now()).timestamp_millis()
}

impl View for MetadataBuilder {
    type V = BuilderView;

    closed spec fn view(&self) -> BuilderView {
        BuilderView {
            file_name: self.file_name@,
            extension: self.extension@,
            tags: match self.tags {
                Option::Some(ts) => Option::Some(tag_views(ts@)),
                Option::None => Option::None,
            },
            timestamp: match self.timestamp {
                Option::Some(t) => Option::Some(t as int),
                Option::None => Option::None,
            },
        }
    }
}

impl MetadataBuilder {
    /// Begin building a metadata value; the required name and extension must
    /// be non-empty.
    pub fn new(file_name: &str, extension: &str) -> (b: MetadataBuilder)
        requires
            file_name@.len() > 0,
            extension@.len() > 0,
        ensures
            b@ == (BuilderView {
                file_name: file_name@,
                extension: extension@,
                tags: Option::None,
                timestamp: Option::None,
            }),
    {
        MetadataBuilder {
            file_name: file_name.to_owned(),
            extension: extension.to_owned(),
            tags: None,
            timestamp: None,
        }
    }

    /// Supply an explicit tag list.
    pub fn set_tags(&mut self, tags: Vec<Tag>)
        ensures
            final(self)@ == (BuilderView { tags: Option::Some(tag_views(tags@)), ..old(self)@ }),
    {
        self.tags = Some(tags);
    }

    /// Supply an explicit creation instant, in milliseconds since the epoch.
    pub fn set_timestamp(&mut self, timestamp: i64)
        ensures
            final(self)@ == (BuilderView { timestamp: Option::Some(timestamp as int), ..old(self)@ }),
    {
        self.timestamp = Some(timestamp);
    }

    /// Finalize the builder into an immutable `Metadata`. Unset tags become
    /// the empty list; an unset timestamp reads the clock, the one
    /// non-deterministic step of this component.
    pub fn build(self) -> (m: Metadata)
        ensures
            m@.file_name == self@.file_name,
            m@.extension == self@.extension,
            m@.tags == match self@.tags {
                Option::Some(ts) => ts,
                Option::None => Seq::<Seq<char>>::empty(),
            },
            self@.timestamp matches Option::Some(t) ==> m@.timestamp == t,
            self@.file_name.len() > 0 && self@.extension.len() > 0 ==> metadata_wf(m@),
    {
        let tags: Vec<Tag> = match self.tags {
            Some(ts) => ts,
            None => Vec::new(),
        };
        let timestamp: i64 = match self.timestamp {
            Some(t) => t,
            None => now_millis(),
        };
        proof {
            assert(tag_views(Seq::<Tag>::empty()) =~= Seq::<Seq<char>>::empty());
        }
        Metadata { file_name: self.file_name, extension: self.extension, tags, timestamp }
    }
}

} // verus!
