//! The catalog, tag lists and image metadata of the registry, and the rules
//! that turn the registry's answers into them.
use vstd::prelude::*;

use crate::auth::AuthError;
use crate::order::{sort_descending, sorted_desc, str_eq, strictly_sorted, views};
use crate::path::segments;
use crate::tree::{indexed_paths, lemma_indexed_paths_push, Tree};

verus! {

/// The status of a missing repository, tag list or manifest.
pub const NOT_FOUND: u16 = 404;

/// The history field that holds an image's v1 metadata.
pub const V1_COMPATIBILITY: &'static str = "v1Compatibility";

/// A failed request to the registry.
#[derive(PartialEq, Eq, Structural, Clone, Copy, Debug)]
pub enum RegistryError {
    /// The registry could not be reached.
    Transport,
    /// The bearer-token exchange failed.
    Auth(AuthError),
    /// The registry has no such repository, tag or manifest.
    NotFound,
    /// The registry answered with another status than success.
    Status(u16),
    /// The body is not of the expected shape.
    MalformedResponse,
    /// The manifest's first history entry holds no v1 metadata.
    MalformedManifest,
    /// An answer came that the exchange was not waiting for.
    OutOfSequence,
}

/// A status in the success class.
pub open spec fn is_success(status: u16) -> bool {
    200 <= status < 300
}

/// The repository named by a directory path: the path without one trailing slash.
pub open spec fn repo_of(path: Seq<char>) -> Seq<char> {
    if path.len() > 0 && path.last() == '/' {
        path.drop_last()
    } else {
        path
    }
}

/// The repository list and the index built from it.
pub struct Catalog {
    pub repositories: Vec<String>,
    pub tree: Tree,
}

/// The tags of one repository.
pub struct Tags {
    pub name: String,
    pub tags: Vec<String>,
}

/// A directory listing: the tags of the repository at a path, and the names
/// below it.
pub struct Dir {
    pub tags: Vec<String>,
    pub dirs: Vec<String>,
}

/// The labels of an image's configuration, in ascending order of their keys.
pub struct Config {
    pub labels: Vec<(String, String)>,
}

/// The keys of a list of key-value entries.
pub open spec fn entry_keys(entries: Seq<(String, String)>) -> Seq<Seq<char>> {
    entries.map_values(|e: (String, String)| e.0@)
}

/// A list of key-value entries as character sequences.
pub open spec fn entry_views(entries: Seq<(String, String)>) -> Seq<(Seq<char>, Seq<char>)> {
    entries.map_values(|e: (String, String)| (e.0@, e.1@))
}

/// An image manifest: its name, its history entries, and the details read
/// from the first entry.
pub struct ImageV1 {
    pub name: String,
    pub history: Vec<Vec<(String, String)>>,
    pub details: ImageV1Details,
}

/// What an image's v1 metadata says of it.
pub struct ImageV1Details {
    pub tag: String,
    pub path: String,
    pub architecture: String,
    /// The configuration's labels, when the field is present and its
    /// `Labels` are not null.
    pub config: Option<Config>,
    pub created: String,
    pub docker_version: String,
    pub os: String,
    pub config_parsed: Config,
}

impl Catalog {
    /// The index holds exactly the paths of the repository names.
    pub open spec fn wf(&self) -> bool {
        &&& self.tree.wf()
        &&& self.tree@ == indexed_paths(views(self.repositories@))
    }

    /// The catalog address, asking for at most `limit` names.
    pub fn get_url(base: &str, limit: &str) -> (r: String)
        ensures
            r@ == base@ + "/v2/_catalog?n="@ + limit@,
    {
        String::from_str(base).concat("/v2/_catalog?n=").concat(limit)
    }

    /// The token endpoint's address for a service and a scope.
    pub fn get_token_url(base: &str, service: &str, scope: &str) -> (r: String)
        ensures
            r@ == base@ + "/v2/token?service="@ + service@ + "&scope="@ + scope@,
    {
        String::from_str(base).concat("/v2/token?service=").concat(service).concat("&scope=").concat(
            scope,
        )
    }

    /// Rebuilds the index from the repository list.
    pub fn update_tree(&mut self)
        ensures
            final(self).repositories == old(self).repositories,
            final(self).wf(),
    {
        let mut structure = Tree::new();
        let mut i: usize = 0;
        let ghost names = views(self.repositories@);
        proof {
            assert forall|p: Seq<Seq<char>>|
                structure@.contains(p) <==> indexed_paths(names.take(0)).contains(p) by {
                if p.len() == 0 {
                    assert(p =~= Seq::<Seq<char>>::empty());
                }
            }
            assert(structure@ =~= indexed_paths(names.take(0)));
        }
        while i < self.repositories.len()
            invariant
                names == views(self.repositories@),
                i <= names.len(),
                structure.wf(),
                structure@ == indexed_paths(names.take(i as int)),
            decreases names.len() - i,
        {
            structure.add_path(self.repositories[i].as_str());
            proof {
                assert(names.take(i + 1) =~= names.take(i as int).push(names[i as int]));
                lemma_indexed_paths_push(names.take(i as int), names[i as int]);
            }
            i = i + 1;
        }
        assert(names.take(i as int) =~= names);
        self.tree = structure;
    }

    /// A catalog of `repositories` with its index.
    pub fn from_repositories(repositories: Vec<String>) -> (r: Catalog)
        ensures
            r.repositories == repositories,
            r.wf(),
    {
        let mut catalog = Catalog { repositories, tree: Tree::new() };
        catalog.update_tree();
        catalog
    }

    /// The catalog that a final answer of the catalog endpoint gives: its
    /// status, and the repository list decoded from its body (`None` where
    /// the body did not decode).
    pub fn from_reply(status: u16, repositories: Option<Vec<String>>) -> (r: Result<
        Catalog,
        RegistryError,
    >)
        ensures
            !is_success(status) ==> r == Err::<Catalog, RegistryError>(RegistryError::Status(status)),
            is_success(status) && repositories is None ==> r == Err::<Catalog, RegistryError>(
                RegistryError::MalformedResponse,
            ),
            is_success(status) && repositories is Some ==> (r matches Ok(c) && c.wf()
                && c.repositories == repositories.unwrap()),
    {
        if status < 200 || status >= 300 {
            return Err(RegistryError::Status(status));
        }
        match repositories {
            Some(names) => Ok(Catalog::from_repositories(names)),
            None => Err(RegistryError::MalformedResponse),
        }
    }

    /// Whether `name` is in the repository list.
    pub fn contains_repository(&self, name: &str) -> (r: bool)
        ensures
            r == views(self.repositories@).contains(name@),
    {
        let mut i: usize = 0;
        while i < self.repositories.len()
            invariant
                i <= self.repositories@.len(),
                forall|k: int| 0 <= k < i ==> self.repositories@[k]@ != name@,
            decreases self.repositories@.len() - i,
        {
            if str_eq(self.repositories[i].as_str(), name) {
                assert(views(self.repositories@)[i as int] == name@);
                return true;
            }
            i = i + 1;
        }
        proof {
            if views(self.repositories@).contains(name@) {
                let k = choose|k: int|
                    0 <= k < views(self.repositories@).len() && views(self.repositories@)[k]
                        == name@;
                assert(self.repositories@[k]@ == name@);
            }
        }
        false
    }

    /// The tag-list address for the directory `path`, or `None` where the
    /// path names no repository of the catalog: its tag list is then empty,
    /// and no request is made.
    pub fn tags_request(&self, base: &str, path: &str) -> (r: Option<String>)
        ensures
            r is None <==> !views(self.repositories@).contains(repo_of(path@)),
            r matches Some(u) ==> u@ == base@ + "/v2/"@ + repo_of(path@) + "/tags/list"@,
    {
        let n = path.unicode_len();
        let repo = if n > 0 && path.get_char(n - 1) == '/' {
            path.substring_char(0, n - 1)
        } else {
            path
        };
        assert(repo@ =~= repo_of(path@));
        if !self.contains_repository(repo) {
            return None;
        }
        Some(String::from_str(base).concat("/v2/").concat(repo).concat("/tags/list"))
    }

    /// The names below the directory `path`, in ascending order, or `None`
    /// where the index has no such path.
    pub fn list_directory(&self, path: &str) -> (r: Option<Vec<String>>)
        requires
            self.wf(),
        ensures
            r is Some <==> self.tree@.contains(segments(path@)),
            r matches Some(d) ==> strictly_sorted(views(d@)) && views(d@).to_set()
                == self.tree.children_at(segments(path@)),
    {
        match self.tree.get_path(path) {
            Some(node) => Some(node.sorted_childrens()),
            None => None,
        }
    }

    /// The manifest address of `tag` in the repository `path`.
    pub fn manifest_url(base: &str, path: &str, tag: &str) -> (r: String)
        ensures
            r@ == base@ + "/v2/"@ + path@ + "/manifests/"@ + tag@,
    {
        String::from_str(base).concat("/v2/").concat(path).concat("/manifests/").concat(tag)
    }
}

/// A directory path as the listing uses it: `.0` ends with a slash (unless
/// the path is empty) and `.1` does not end with the slash it had.
pub fn directory_paths(path: &str) -> (r: (String, String))
    ensures
        path@.len() == 0 ==> r.0@ == path@ && r.1@ == path@,
        path@.len() > 0 && path@.last() == '/' ==> r.0@ == path@ && r.1@ == path@.drop_last(),
        path@.len() > 0 && path@.last() != '/' ==> r.0@ == path@ + "/"@ && r.1@ == path@,
{
    let n = path.unicode_len();
    if n == 0 {
        (String::from_str(path), String::from_str(path))
    } else if path.get_char(n - 1) == '/' {
        let stripped = path.substring_char(0, n - 1);
        assert(stripped@ =~= path@.drop_last());
        (String::from_str(path), String::from_str(stripped))
    } else {
        (String::from_str(path).concat("/"), String::from_str(path))
    }
}

impl Default for Catalog {
    /// No repositories, and the index of none.
    fn default() -> (r: Catalog)
        ensures
            r.repositories@.len() == 0,
            r.wf(),
    {
        Catalog::from_repositories(Vec::new())
    }
}

impl Tags {
    /// An empty tag list.
    pub fn new() -> (r: Tags)
        ensures
            r.name@.len() == 0,
            r.tags@.len() == 0,
    {
        Tags { name: String::new(), tags: Vec::new() }
    }
}

/// The tag list that a final answer of the tag-list endpoint gives: its
/// status, and the tag list decoded from its body (`None` where the body did
/// not decode). A missing list is an empty one; the tags come in descending
/// order of their text.
pub fn tags_from_reply(status: u16, decoded: Option<Tags>) -> (r: Result<Tags, RegistryError>)
    ensures
        status == NOT_FOUND ==> (r matches Ok(t) && t.name@.len() == 0 && t.tags@.len() == 0),
        status != NOT_FOUND && !is_success(status) ==> r == Err::<Tags, RegistryError>(
            RegistryError::Status(status),
        ),
        is_success(status) && decoded is None ==> r == Err::<Tags, RegistryError>(
            RegistryError::MalformedResponse,
        ),
        is_success(status) && decoded is Some ==> (r matches Ok(t) && t.name
            == decoded.unwrap().name && sorted_desc(views(t.tags@)) && views(t.tags@).to_multiset()
            == views(decoded.unwrap().tags@).to_multiset()),
{
    if status == NOT_FOUND {
        return Ok(Tags::new());
    }
    if status < 200 || status >= 300 {
        return Err(RegistryError::Status(status));
    }
    match decoded {
        Some(t) => {
            let Tags { name, tags } = t;
            Ok(Tags { name, tags: sort_descending(tags) })
        },
        None => Err(RegistryError::MalformedResponse),
    }
}

/// The position of the first entry with key `key`.
pub open spec fn first_key(entries: Seq<(String, String)>, key: Seq<char>, i: int) -> bool {
    0 <= i < entries.len() && entries[i].0@ == key && forall|j: int|
        0 <= j < i ==> (#[trigger] entries[j]).0@ != key
}

/// The v1 metadata text that a final answer of the manifest endpoint holds:
/// its status, and the manifest decoded from its body (`None` where the body
/// did not decode). The text is the value of the first history entry's
/// `v1Compatibility` field.
pub fn v1_compatibility(status: u16, image: Option<&ImageV1>) -> (r: Result<String, RegistryError>)
    ensures
        status == NOT_FOUND ==> r == Err::<String, RegistryError>(RegistryError::NotFound),
        status != NOT_FOUND && !is_success(status) ==> r == Err::<String, RegistryError>(
            RegistryError::Status(status),
        ),
        is_success(status) && image is None ==> r == Err::<String, RegistryError>(
            RegistryError::MalformedResponse,
        ),
        is_success(status) && image is Some ==> match r {
            Ok(v) => image.unwrap().history@.len() > 0 && exists|i: int|
                first_key(image.unwrap().history@[0]@, V1_COMPATIBILITY@, i)
                    && image.unwrap().history@[0]@[i].1@ == v@,
            Err(e) => e == RegistryError::MalformedManifest && (image.unwrap().history@.len() == 0
                || forall|i: int|
                0 <= i < image.unwrap().history@[0]@.len() ==> (
                #[trigger] image.unwrap().history@[0]@[i]).0@ != V1_COMPATIBILITY@),
        },
{
    if status == NOT_FOUND {
        return Err(RegistryError::NotFound);
    }
    if status < 200 || status >= 300 {
        return Err(RegistryError::Status(status));
    }
    let m = match image {
        Some(m) => m,
        None => {
            return Err(RegistryError::MalformedResponse);
        },
    };
    if m.history.len() == 0 {
        return Err(RegistryError::MalformedManifest);
    }
    let entries = &m.history[0];
    let mut i: usize = 0;
    while i < entries.len()
        invariant
            is_success(status),
            image == Some(m),
            m.history@.len() > 0,
            *entries == m.history@[0],
            i <= entries@.len(),
            forall|j: int| 0 <= j < i ==> (#[trigger] entries@[j]).0@ != V1_COMPATIBILITY@,
        decreases entries@.len() - i,
    {
        if str_eq(entries[i].0.as_str(), V1_COMPATIBILITY) {
            assert(first_key(entries@, V1_COMPATIBILITY@, i as int));
            return Ok(entries[i].1.clone());
        }
        i = i + 1;
    }
    Err(RegistryError::MalformedManifest)
}

impl View for Config {
    type V = Seq<(Seq<char>, Seq<char>)>;

    open spec fn view(&self) -> Seq<(Seq<char>, Seq<char>)> {
        entry_views(self.labels@)
    }
}

impl Config {
    /// The keys are in strictly ascending order, so each appears once.
    pub open spec fn wf(&self) -> bool {
        strictly_sorted(entry_keys(self.labels@))
    }

    /// A copy of the labels.
    pub fn duplicate(&self) -> (r: Config)
        ensures
            r@ == self@,
            entry_keys(r.labels@) == entry_keys(self.labels@),
    {
        let mut labels: Vec<(String, String)> = Vec::new();
        let mut i: usize = 0;
        while i < self.labels.len()
            invariant
                i <= self.labels@.len(),
                entry_views(labels@) == entry_views(self.labels@).take(i as int),
                entry_keys(labels@) == entry_keys(self.labels@).take(i as int),
            decreases self.labels@.len() - i,
        {
            let ghost before = labels@;
            let key = self.labels[i].0.clone();
            let value = self.labels[i].1.clone();
            labels.push((key, value));
            assert(entry_views(labels@) =~= entry_views(before).push((key@, value@)));
            assert(entry_views(self.labels@).take(i + 1) =~= entry_views(self.labels@).take(
                i as int,
            ).push(entry_views(self.labels@)[i as int]));
            assert(entry_keys(labels@) =~= entry_keys(before).push(key@));
            assert(entry_keys(self.labels@).take(i + 1) =~= entry_keys(self.labels@).take(
                i as int,
            ).push(entry_keys(self.labels@)[i as int]));
            i = i + 1;
        }
        assert(entry_views(self.labels@).take(i as int) =~= entry_views(self.labels@));
        assert(entry_keys(self.labels@).take(i as int) =~= entry_keys(self.labels@));
        Config { labels }
    }
}

impl Default for Config {
    /// No labels.
    fn default() -> (r: Config)
        ensures
            r.labels@.len() == 0,
            r@.len() == 0,
            r.wf(),
    {
        Config { labels: Vec::new() }
    }
}

impl Default for ImageV1Details {
    /// Details with every text empty and no labels.
    fn default() -> (r: ImageV1Details)
        ensures
            r.tag@.len() == 0,
            r.path@.len() == 0,
            r.architecture@.len() == 0,
            r.config is None,
            r.created@.len() == 0,
            r.docker_version@.len() == 0,
            r.os@.len() == 0,
            r.config_parsed.labels@.len() == 0,
            r.wf(),
    {
        ImageV1Details {
            tag: String::new(),
            path: String::new(),
            architecture: String::new(),
            config: None,
            created: String::new(),
            docker_version: String::new(),
            os: String::new(),
            config_parsed: Config::default(),
        }
    }
}

impl ImageV1Details {
    /// The labels, given and taken, are each in key order.
    pub open spec fn wf(&self) -> bool {
        &&& self.config matches Some(c) ==> c.wf()
        &&& self.config_parsed.wf()
    }

    /// Fills `config_parsed` with a copy of the configuration's labels, or
    /// with none where it has none; the configuration stays as it was.
    pub fn update_config(&mut self)
        requires
            old(self).wf(),
        ensures
            final(self).wf(),
            match old(self).config {
                Some(c) => final(self).config_parsed@ == c@,
                None => final(self).config_parsed@.len() == 0,
            },
            final(self).config == old(self).config,
            final(self).tag == old(self).tag,
            final(self).path == old(self).path,
            final(self).architecture == old(self).architecture,
            final(self).created == old(self).created,
            final(self).docker_version == old(self).docker_version,
            final(self).os == old(self).os,
    {
        let parsed = match &self.config {
            Some(c) => c.duplicate(),
            None => Config::default(),
        };
        self.config_parsed = parsed;
    }
}

impl ImageV1 {
    /// Each history entry holds each key once.
    pub open spec fn history_wf(&self) -> bool {
        forall|i: int| 0 <= i < self.history@.len() ==> entry_keys(#[trigger] self.history@[i]@).no_duplicates()
    }

    /// The history entries and the details are well-formed.
    pub open spec fn wf(&self) -> bool {
        self.history_wf() && self.details.wf()
    }

    /// The image with `details` read from its first history entry, for `tag`
    /// of the repository `path`.
    pub fn with_details(self, details: ImageV1Details, path: &str, tag: &str) -> (r: ImageV1)
        requires
            self.history_wf(),
            details.wf(),
        ensures
            r.wf(),
            r.name == self.name,
            r.history == self.history,
            r.details.tag@ == tag@,
            r.details.path@ == path@,
            r.details.architecture == details.architecture,
            r.details.created == details.created,
            r.details.docker_version == details.docker_version,
            r.details.os == details.os,
            r.details.config == details.config,
            match details.config {
                Some(c) => r.details.config_parsed@ == c@,
                None => r.details.config_parsed@.len() == 0,
            },
    {
        let mut details = details;
        details.update_config();
        details.tag = String::from_str(tag);
        details.path = String::from_str(path);
        ImageV1 { name: self.name, history: self.history, details }
    }
}

} // verus!
