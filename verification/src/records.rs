//! The durable record types: the media record and the slice of the account
//! entity that the core owns (the upload index).

use vstd::prelude::*;

verus! {

/// Coarse content category derived from the payload's leading bytes.
#[derive(Clone, Copy, PartialEq, Eq, Structural, Debug)]
pub enum ContentType {
    Video,
    Image,
    Other,
}

/// The durable metadata entry for one uploaded blob.
///
/// `id` is the externally visible identity; `data_path` is the filesystem
/// location of the stored payload, exclusively owned by this record;
/// `data_compressed` says whether that file holds a DEFLATE-compressed form.
#[derive(Clone, Debug)]
pub struct MediaRecord {
    pub id: String,
    pub name: String,
    pub extension: String,
    pub data_type: ContentType,
    pub data_size: u64,
    pub data_path: String,
    pub data_compressed: bool,
    pub upload_date: u64,
    pub author_username: String,
    pub unlisted: bool,
    pub tags: Option<Vec<String>>,
    pub downloads: u64,
}

/// Mathematical model of a media record.
pub struct MediaView {
    pub id: Seq<char>,
    pub name: Seq<char>,
    pub extension: Seq<char>,
    pub data_type: ContentType,
    pub data_size: u64,
    pub data_path: Seq<char>,
    pub data_compressed: bool,
    pub upload_date: u64,
    pub author_username: Seq<char>,
    pub unlisted: bool,
    pub tags: Option<Seq<Seq<char>>>,
    pub downloads: u64,
}

impl View for MediaRecord {
    type V = MediaView;

    open spec fn view(&self) -> MediaView {
        MediaView {
            id: self.id@,
            name: self.name@,
            extension: self.extension@,
            data_type: self.data_type,
            data_size: self.data_size,
            data_path: self.data_path@,
            data_compressed: self.data_compressed,
            upload_date: self.upload_date,
            author_username: self.author_username@,
            unlisted: self.unlisted,
            tags: match self.tags {
                Some(ts) => Some(ts.deep_view()),
                None => None,
            },
            downloads: self.downloads,
        }
    }
}

/// Copies a string list element by element, preserving its contents.
fn clone_string_vec(v: &Vec<String>) -> (r: Vec<String>)
    ensures
        r@ == v@,
        r.deep_view() == v.deep_view(),
{
    let mut r: Vec<String> = Vec::new();
    let mut i: usize = 0;
    while i < v.len()
        invariant
            i <= v@.len(),
            r@ == v@.take(i as int),
        decreases v@.len() - i,
    {
        r.push(v[i].clone());
        proof {
            assert(r@ =~= v@.take(i as int + 1));
        }
        i += 1;
    }
    proof {
        assert(v@.take(v@.len() as int) =~= v@);
        assert(r.deep_view() =~= v.deep_view());
    }
    r
}

impl MediaRecord {
    /// A copy of the record with the same model.
    pub fn duplicate(&self) -> (r: MediaRecord)
        ensures
            r@ == self@,
    {
        MediaRecord {
            id: self.id.clone(),
            name: self.name.clone(),
            extension: self.extension.clone(),
            data_type: self.data_type,
            data_size: self.data_size,
            data_path: self.data_path.clone(),
            data_compressed: self.data_compressed,
            upload_date: self.upload_date,
            author_username: self.author_username.clone(),
            unlisted: self.unlisted,
            tags: match &self.tags {
                None => None,
                Some(ts) => Some(clone_string_vec(ts)),
            },
            downloads: self.downloads,
        }
    }
}

/// The projection of an account that the core owns: the ordered list of
/// media ids uploaded by the account.
#[derive(Clone, Debug)]
pub struct Account {
    pub username: String,
    pub uploads: Vec<String>,
}

/// Mathematical model of an account's upload index.
pub struct AccountView {
    pub username: Seq<char>,
    pub uploads: Seq<Seq<char>>,
}

impl Account {
    /// A copy of the account with the same model.
    pub fn duplicate(&self) -> (r: Account)
        ensures
            r@ == self@,
    {
        Account { username: self.username.clone(), uploads: clone_string_vec(&self.uploads) }
    }
}

impl View for Account {
    type V = AccountView;

    open spec fn view(&self) -> AccountView {
        AccountView { username: self.username@, uploads: self.uploads.deep_view() }
    }
}

} // verus!
