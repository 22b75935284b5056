//! Database handles: which file a kind of database lives in, and the registry
//! that hands out one handle per database file.
use vstd::prelude::*;

verus! {

/// A path as the sequence of its components, each the bytes of an OS string;
/// an absolute path starts with the root component `/`.
#[derive(Debug, PartialEq, Eq)]
pub struct DbPath {
    pub components: Vec<Vec<u8>>,
}

impl View for DbPath {
    type V = Seq<Seq<u8>>;

    open spec fn view(&self) -> Seq<Seq<u8>> {
        self.components@.map_values(|c: Vec<u8>| c@)
    }
}

/// The root component.
pub open spec fn root_component() -> Seq<u8> {
    seq![47u8]
}

/// The component `..`.
pub open spec fn parent_component() -> Seq<u8> {
    seq![46u8, 46u8]
}

/// The component `.`.
pub open spec fn current_component() -> Seq<u8> {
    seq![46u8]
}

/// `p` is absolute.
pub open spec fn is_absolute(p: Seq<Seq<u8>>) -> bool {
    p.len() > 0 && p[0] == root_component()
}

/// `base` joined with `other`: `other` itself when it is absolute, else the
/// components of both.
pub open spec fn join_paths(base: Seq<Seq<u8>>, other: Seq<Seq<u8>>) -> Seq<Seq<u8>> {
    if is_absolute(other) {
        other
    } else {
        base + other
    }
}

/// `p` ends in a file name: its last component is not `/`, `.` or `..`.
pub open spec fn has_file_name(p: Seq<Seq<u8>>) -> bool {
    &&& p.len() > 0
    &&& p.last() != root_component()
    &&& p.last() != parent_component()
    &&& p.last() != current_component()
}

/// The index of the last `.` in `name` before index `i`.
pub open spec fn last_dot_before(name: Seq<u8>, i: int) -> Option<int>
    decreases i,
{
    if i <= 0 {
        None
    } else if name[i - 1] == 46u8 {
        Some(i - 1)
    } else {
        last_dot_before(name, i - 1)
    }
}

/// The length of a file name's stem: up to its last `.`, unless that dot is
/// the first byte (a hidden file) or there is none.
pub open spec fn stem_len(name: Seq<u8>) -> int {
    match last_dot_before(name, name.len() as int) {
        Some(k) => if k == 0 {
            name.len() as int
        } else {
            k
        },
        None => name.len() as int,
    }
}

/// The file name with its extension replaced by `ext` (removed when `ext` is
/// empty).
pub open spec fn name_with_extension(name: Seq<u8>, ext: Seq<u8>) -> Seq<u8> {
    let stem = name.take(stem_len(name));
    if ext.len() == 0 {
        stem
    } else {
        stem + seq![46u8] + ext
    }
}

/// `p` with the extension of its file name set to `ext`; `None` when `p` has
/// no file name.
pub open spec fn with_extension(p: Seq<Seq<u8>>, ext: Seq<u8>) -> Option<Seq<Seq<u8>>> {
    if has_file_name(p) {
        Some(p.update(p.len() - 1, name_with_extension(p.last(), ext)))
    } else {
        None
    }
}

impl DbPath {
    /// The path with no component.
    pub fn new() -> (p: DbPath)
        ensures
            p@ == Seq::<Seq<u8>>::empty(),
    {
        let p = DbPath { components: Vec::new() };
        assert(p@ =~= Seq::<Seq<u8>>::empty());
        p
    }

    /// This path joined with `other`.
    pub fn join(&self, other: &DbPath) -> (p: DbPath)
        ensures
            p@ == join_paths(self@, other@),
    {
        if other.components.len() > 0 && is_root(&other.components[0]) {
            return other.clone();
        }
        let mut components = copy_components(&self.components);
        let ghost base = self@;
        let ghost n = base.len();
        assert(components@.len() == n);
        for i in 0..other.components.len()
            invariant
                components@.len() == n + i,
                n == base.len(),
                base == self@,
                forall|j: int| 0 <= j < n ==> #[trigger] components@[j]@ == base[j],
                forall|j: int| 0 <= j < i ==> #[trigger] components@[n + j]@ == other@[j],
        {
            components.push(copy_bytes(&other.components[i]));
            assert(components@[n + i]@ == other@[i as int]);
        }
        let p = DbPath { components };
        assert forall|k: int| 0 <= k < p@.len() implies p@[k] == (self@ + other@)[k] by {
            if k >= n {
                let j = k - n;
                assert(components@[n + j]@ == other@[j]);
            }
        }
        assert(p@ =~= self@ + other@);
        p
    }

    /// Sets the extension of the file name to `ext`; false, with the path
    /// unchanged, when the path has no file name.
    pub fn set_extension(&mut self, ext: &[u8]) -> (changed: bool)
        ensures
            with_extension(old(self)@, ext@) matches Some(p) ==> changed && final(self)@ == p,
            with_extension(old(self)@, ext@) is None ==> !changed && final(self)@ == old(self)@,
    {
        let n: usize = self.components.len();
        if n == 0 {
            return false;
        }
        let name = &self.components[n - 1];
        assert(self@.last() == name@);
        if is_root(name) || is_dot(name) || is_dot_dot(name) {
            return false;
        }
        let stem: usize = stem_length(name);
        let mut renamed: Vec<u8> = Vec::new();
        for i in 0..stem
            invariant
                stem <= name@.len(),
                renamed@ == name@.take(i as int),
        {
            renamed.push(name[i]);
            assert(renamed@ =~= name@.take(i + 1));
        }
        if ext.len() > 0 {
            renamed.push(46u8);
            let ghost before = renamed@;
            for i in 0..ext.len()
                invariant
                    renamed@ == before + ext@.take(i as int),
            {
                renamed.push(ext[i]);
                assert(renamed@ =~= before + ext@.take(i + 1));
            }
            assert(ext@.take(ext@.len() as int) =~= ext@);
        }
        assert(renamed@ =~= name_with_extension(name@, ext@));
        let ghost old_view = self@;
        self.components.set(n - 1, renamed);
        assert(self@ =~= old_view.update(n - 1, name_with_extension(old_view.last(), ext@)));
        true
    }
}

impl Clone for DbPath {
    fn clone(&self) -> (p: DbPath)
        ensures
            p@ == self@,
    {
        let p = DbPath { components: copy_components(&self.components) };
        p
    }
}

/// A copy of a byte string.
fn copy_bytes(v: &Vec<u8>) -> (res: Vec<u8>)
    ensures
        res@ == v@,
{
    let mut res: Vec<u8> = Vec::new();
    for i in 0..v.len()
        invariant
            res@ == v@.take(i as int),
    {
        res.push(v[i]);
        assert(res@ =~= v@.take(i + 1));
    }
    assert(res@ =~= v@);
    res
}

/// A copy of a list of components, as views.
fn copy_components(v: &Vec<Vec<u8>>) -> (res: Vec<Vec<u8>>)
    ensures
        res@.map_values(|c: Vec<u8>| c@) == v@.map_values(|c: Vec<u8>| c@),
{
    let mut res: Vec<Vec<u8>> = Vec::new();
    for i in 0..v.len()
        invariant
            res@.len() == i,
            forall|j: int| 0 <= j < i ==> #[trigger] res@[j]@ == v@[j]@,
    {
        res.push(copy_bytes(&v[i]));
    }
    assert(res@.map_values(|c: Vec<u8>| c@) =~= v@.map_values(|c: Vec<u8>| c@));
    res
}

fn is_root(c: &Vec<u8>) -> (b: bool)
    ensures
        b == (c@ == root_component()),
{
    let b = c.len() == 1 && c[0] == 47u8;
    assert(b ==> c@ =~= root_component());
    b
}

fn is_dot(c: &Vec<u8>) -> (b: bool)
    ensures
        b == (c@ == current_component()),
{
    let b = c.len() == 1 && c[0] == 46u8;
    assert(b ==> c@ =~= current_component());
    b
}

fn is_dot_dot(c: &Vec<u8>) -> (b: bool)
    ensures
        b == (c@ == parent_component()),
{
    let b = c.len() == 2 && c[0] == 46u8 && c[1] == 46u8;
    assert(b ==> c@ =~= parent_component());
    b
}

/// The stem length of a file name.
fn stem_length(name: &Vec<u8>) -> (len: usize)
    ensures
        len == stem_len(name@),
        len <= name@.len(),
{
    let mut i: usize = name.len();
    while i > 0
        invariant
            i <= name@.len(),
            last_dot_before(name@, name@.len() as int) == last_dot_before(name@, i as int),
        decreases i,
    {
        if name[i - 1] == 46u8 {
            if i - 1 == 0 {
                return name.len();
            }
            return i - 1;
        }
        i = i - 1;
    }
    name.len()
}

/// The kinds of database.
#[derive(Clone, Copy, Debug, PartialEq, Eq, Hash)]
pub enum DbKind {
    Zchronod,
}

/// The bytes of the extension that database files carry.
pub open spec fn db_extension() -> Seq<u8> {
    seq![115u8, 113u8, 108u8, 105u8, 116u8, 101u8, 51u8]
}

/// A kind of database and where its file lies.
pub trait DbKindT: Clone + core::fmt::Debug + Send + Sync + 'static {
    /// The path of the database file without its extension.
    spec fn spec_filename_inner(&self) -> Seq<Seq<u8>>;

    /// The kind of database.
    fn kind(&self) -> DbKind;

    /// The path of the database file: the inner file name with the extension
    /// `sqlite3`.
    fn filename(&self) -> (p: DbPath)
        ensures
            p@ == db_file_of(self.spec_filename_inner()),
    {
        let mut path = self.filename_inner();
        let ext: Vec<u8> = vec![115u8, 113u8, 108u8, 105u8, 116u8, 101u8, 51u8];
        assert(ext@ =~= db_extension());
        path.set_extension(ext.as_slice());
        path
    }

    /// The path of the database file without its extension.
    fn filename_inner(&self) -> (p: DbPath)
        ensures
            p@ == self.spec_filename_inner(),
    ;

    /// Whether a corrupt database file is wiped rather than reported.
    fn if_corrupt_wipe(&self) -> bool;
}

/// The path of a database file whose path without extension is `inner`: its
/// file name with the extension `sqlite3`, or `inner` as it is when it has no
/// file name.
pub open spec fn db_file_of(inner: Seq<Seq<u8>>) -> Seq<Seq<u8>> {
    match with_extension(inner, db_extension()) {
        Some(p) => p,
        None => inner,
    }
}

/// The path of the database file of `kind`.
pub open spec fn db_file<Kind: DbKindT>(kind: &Kind) -> Seq<Seq<u8>> {
    db_file_of(kind.spec_filename_inner())
}

/// The database of the chronos node.
#[derive(Clone, Copy, Debug, PartialEq, Eq, Hash)]
pub struct DbKindZchronod;

/// The bytes of `zchronod`.
pub open spec fn zchronod_name() -> Seq<u8> {
    seq![122u8, 99u8, 104u8, 114u8, 111u8, 110u8, 111u8, 100u8]
}

fn zchronod_bytes() -> (v: Vec<u8>)
    ensures
        v@ == zchronod_name(),
{
    let v: Vec<u8> = vec![122u8, 99u8, 104u8, 114u8, 111u8, 110u8, 111u8, 100u8];
    assert(v@ =~= zchronod_name());
    v
}

impl DbKindT for DbKindZchronod {
    open spec fn spec_filename_inner(&self) -> Seq<Seq<u8>> {
        seq![zchronod_name(), zchronod_name()]
    }

    fn kind(&self) -> (k: DbKind)
        ensures
            k == DbKind::Zchronod,
    {
        DbKind::Zchronod
    }

    fn filename_inner(&self) -> (p: DbPath) {
        let p = DbPath { components: vec![zchronod_bytes(), zchronod_bytes()] };
        assert(p@ =~= self.spec_filename_inner());
        p
    }

    fn if_corrupt_wipe(&self) -> (wipe: bool)
        ensures
            !wipe,
    {
        false
    }
}

/// Why a database could not be opened.
#[derive(Clone, Debug)]
pub enum DatabaseError {
    /// The directory that should hold the database file is missing and could
    /// not be created.
    DatabaseMissing(DbPath),
}

/// The result of a database operation.
pub type DatabaseResult<T> = Result<T, DatabaseError>;

/// A handle for reading a database: its kind and the path of its file.
#[derive(Debug)]
pub struct DbRead<Kind: DbKindT> {
    kind: Kind,
    path: DbPath,
}

impl<Kind: DbKindT> DbRead<Kind> {
    /// The kind of the database.
    pub closed spec fn spec_kind(&self) -> Kind {
        self.kind
    }

    /// The path of the database file.
    pub closed spec fn spec_path(&self) -> Seq<Seq<u8>> {
        self.path@
    }

    /// The kind of the database.
    pub fn kind(&self) -> (k: &Kind)
        ensures
            *k == self.spec_kind(),
    {
        &self.kind
    }

    /// The path of the database file.
    pub fn path(&self) -> (p: &DbPath)
        ensures
            p@ == self.spec_path(),
    {
        &self.path
    }
}

impl<Kind: DbKindT> Clone for DbRead<Kind> {
    fn clone(&self) -> (c: DbRead<Kind>)
        ensures
            cloned::<Kind>(self.spec_kind(), c.spec_kind()),
            c.spec_path() == self.spec_path(),
    {
        DbRead { kind: self.kind.clone(), path: self.path.clone() }
    }
}

/// A handle for writing a database, which can also be read through.
#[derive(Debug)]
pub struct DbWrite<Kind: DbKindT>(DbRead<Kind>);

impl<Kind: DbKindT> DbWrite<Kind> {
    /// The handle as a read handle.
    pub closed spec fn spec_read(&self) -> DbRead<Kind> {
        self.0
    }

    /// The read handle inside.
    pub fn as_read(&self) -> (r: &DbRead<Kind>)
        ensures
            *r == self.spec_read(),
    {
        &self.0
    }

    /// The read handle inside, taking the write handle.
    pub fn into_read(self) -> (r: DbRead<Kind>)
        ensures
            r == self.spec_read(),
    {
        self.0
    }

    /// The path of the database file of `kind` below `path_prefix` (or the
    /// file's own path without a prefix).
    pub open spec fn spec_db_path(path_prefix: Option<Seq<Seq<u8>>>, kind: Kind) -> Seq<
        Seq<u8>,
    > {
        match path_prefix {
            Some(prefix) => join_paths(prefix, db_file(&kind)),
            None => db_file(&kind),
        }
    }

    /// A handle for the database of `kind` whose file lies below `path_prefix`.
    pub fn new(path_prefix: Option<&DbPath>, kind: Kind) -> (res: DatabaseResult<Self>)
        ensures
            res matches Ok(db) && db.spec_read().spec_kind() == kind && db.spec_read().spec_path()
                == Self::spec_db_path(
                match path_prefix {
                    Some(p) => Some(p@),
                    None => None,
                },
                kind,
            ),
    {
        let file = kind.filename();
        let path = match path_prefix {
            Some(prefix) => prefix.join(&file),
            None => file,
        };
        Ok(DbWrite(DbRead { kind, path }))
    }

    /// The handle for the database of `kind` below `path_prefix` from the
    /// registry: the one registered for that file if there is one, else a new
    /// one, which is registered. Either way the registry then holds a handle
    /// for that file, so opening it again hands out the same database.
    pub fn open(path_prefix: &DbPath, kind: Kind, handler: &mut RawDbHandler<Kind>) -> (res:
        DatabaseResult<Self>)
        ensures
            ({
                let path = Self::spec_db_path(Some(path_prefix@), kind);
                &&& res matches Ok(db) && db.spec_read().spec_path() == path
                &&& final(handler).spec_lookup(path) is Some
                &&& unique_paths(old(handler)@) ==> unique_paths(final(handler)@)
                &&& match old(handler).spec_lookup(path) {
                    Some(i) => {
                        &&& final(handler)@ == old(handler)@
                        &&& res matches Ok(db) && cloned::<Kind>(
                            old(handler)@[i].1,
                            db.spec_read().spec_kind(),
                        )
                    },
                    None => {
                        &&& final(handler)@.len() == old(handler)@.len() + 1
                        &&& final(handler)@.drop_last() == old(handler)@
                        &&& final(handler)@.last().0 == path
                        &&& res matches Ok(db) && db.spec_read().spec_kind() == kind && cloned::<
                            Kind,
                        >(kind, final(handler)@.last().1)
                    },
                }
            }),
    {
        handler.get_or_insert(path_prefix, kind)
    }
}

impl<Kind: DbKindT> Clone for DbWrite<Kind> {
    fn clone(&self) -> (c: DbWrite<Kind>)
        ensures
            cloned::<Kind>(self.spec_read().spec_kind(), c.spec_read().spec_kind()),
            c.spec_read().spec_path() == self.spec_read().spec_path(),
    {
        DbWrite(self.0.clone())
    }
}

/// The index of the first entry for `path`.
pub open spec fn first_entry_for<Kind>(entries: Seq<(Seq<Seq<u8>>, Kind)>, path: Seq<Seq<u8>>) -> Option<
    int,
>
    decreases entries.len(),
{
    if entries.len() == 0 {
        None
    } else {
        match first_entry_for(entries.drop_last(), path) {
            Some(i) => Some(i),
            None => if entries.last().0 == path {
                Some(entries.len() - 1)
            } else {
                None
            },
        }
    }
}

/// No two entries are for the same path.
pub open spec fn unique_paths<Kind>(entries: Seq<(Seq<Seq<u8>>, Kind)>) -> bool {
    forall|i: int, j: int|
        0 <= i < j < entries.len() ==> #[trigger] entries[i].0 != #[trigger] entries[j].0
}

/// When no entry is the first for `path`, no entry is for `path` at all.
proof fn lemma_no_entry_for<Kind>(entries: Seq<(Seq<Seq<u8>>, Kind)>, path: Seq<Seq<u8>>)
    requires
        first_entry_for(entries, path) is None,
    ensures
        forall|j: int| 0 <= j < entries.len() ==> #[trigger] entries[j].0 != path,
    decreases entries.len(),
{
    if entries.len() > 0 {
        lemma_no_entry_for(entries.drop_last(), path);
        assert forall|j: int| 0 <= j < entries.len() implies #[trigger] entries[j].0 != path by {
            if j < entries.len() - 1 {
                assert(entries.drop_last()[j] == entries[j]);
            }
        }
    }
}

/// The registry of open databases: one write handle per database file.
pub struct RawDbHandler<Kind: DbKindT> {
    dbs: Vec<DbWrite<Kind>>,
}

impl<Kind: DbKindT> View for RawDbHandler<Kind> {
    type V = Seq<(Seq<Seq<u8>>, Kind)>;

    closed spec fn view(&self) -> Seq<(Seq<Seq<u8>>, Kind)> {
        self.dbs@.map_values(|d: DbWrite<Kind>| (d.0.path@, d.0.kind))
    }
}

impl<Kind: DbKindT> RawDbHandler<Kind> {
    /// The index of the handle registered for `path`.
    pub open spec fn spec_lookup(&self, path: Seq<Seq<u8>>) -> Option<int> {
        first_entry_for(self@, path)
    }

    /// A registry with no database.
    pub fn new() -> (h: RawDbHandler<Kind>)
        ensures
            h@ == Seq::<(Seq<Seq<u8>>, Kind)>::empty(),
            unique_paths(h@),
    {
        let h = RawDbHandler { dbs: Vec::new() };
        assert(h@ =~= Seq::<(Seq<Seq<u8>>, Kind)>::empty());
        h
    }

    /// The number of registered databases.
    pub fn len(&self) -> (n: usize)
        ensures
            n == self@.len(),
    {
        self.dbs.len()
    }

    /// The handle registered for the database file of `kind` below
    /// `path_prefix`, registering a new one first when there is none.
    pub fn get_or_insert(&mut self, path_prefix: &DbPath, kind: Kind) -> (res: DatabaseResult<
        DbWrite<Kind>,
    >)
        ensures
            ({
                let path = DbWrite::<Kind>::spec_db_path(Some(path_prefix@), kind);
                &&& res matches Ok(db) && db.spec_read().spec_path() == path
                &&& final(self).spec_lookup(path) is Some
                &&& unique_paths(old(self)@) ==> unique_paths(final(self)@)
                &&& match old(self).spec_lookup(path) {
                    Some(i) => {
                        &&& final(self)@ == old(self)@
                        &&& res matches Ok(db) && cloned::<Kind>(
                            old(self)@[i].1,
                            db.spec_read().spec_kind(),
                        )
                    },
                    None => {
                        &&& final(self)@.len() == old(self)@.len() + 1
                        &&& final(self)@.drop_last() == old(self)@
                        &&& final(self)@.last().0 == path
                        &&& res matches Ok(db) && db.spec_read().spec_kind() == kind && cloned::<
                            Kind,
                        >(kind, final(self)@.last().1)
                    },
                }
            }),
    {
        let file = kind.filename();
        let path = path_prefix.join(&file);
        let ghost entries = self@;
        assert(path@ == DbWrite::<Kind>::spec_db_path(Some(path_prefix@), kind));
        let mut i: usize = 0;
        while i < self.dbs.len()
            invariant
                entries == self@,
                path@ == DbWrite::<Kind>::spec_db_path(Some(path_prefix@), kind),
                i <= self.dbs@.len(),
                first_entry_for(entries.take(i as int), path@) is None,
            decreases self.dbs@.len() - i,
        {
            assert(entries.take(i + 1).drop_last() =~= entries.take(i as int));
            assert(entries[i as int] == (self.dbs@[i as int].0.path@, self.dbs@[i as int].0.kind));
            if paths_equal(&self.dbs[i].0.path, &path) {
                assert(entries[i as int].0 == path@);
                assert(entries.take(i + 1).last() == entries[i as int]);
                assert(first_entry_for(entries.take(i + 1), path@) == Some(i as int));
                proof {
                    lemma_first_entry_prefix(entries, i as int + 1, path@);
                }
                let found = self.dbs[i].clone();
                assert(found.spec_read().spec_path() == path@);
                assert(cloned::<Kind>(entries[i as int].1, found.spec_read().spec_kind()));
                return Ok(found);
            }
            i = i + 1;
        }
        assert(entries.take(i as int) =~= entries);
        proof {
            lemma_no_entry_for(entries, path@);
        }
        let db = match DbWrite::new(Some(path_prefix), kind) {
            Ok(db) => db,
            Err(e) => return Err(e),
        };
        let stored = db.clone();
        let ghost before = self@;
        self.dbs.push(stored);
        assert(self@.drop_last() =~= before);
        assert(self@[before.len() as int].0 == path@);
        assert(unique_paths(before) ==> unique_paths(self@)) by {
            if unique_paths(before) {
                assert forall|i: int, j: int| 0 <= i < j < self@.len() implies #[trigger] self@[i].0
                    != #[trigger] self@[j].0 by {
                    assert(self@[i] == before[i]);
                    if j < before.len() {
                        assert(self@[j] == before[j]);
                    }
                }
            }
        }
        Ok(db)
    }
}

/// The first entry for a path within a prefix of the entries is the first
/// entry for it in all of them.
proof fn lemma_first_entry_prefix<Kind>(entries: Seq<(Seq<Seq<u8>>, Kind)>, n: int, path: Seq<Seq<u8>>)
    requires
        0 <= n <= entries.len(),
        first_entry_for(entries.take(n), path) is Some,
    ensures
        first_entry_for(entries, path) == first_entry_for(entries.take(n), path),
    decreases entries.len(),
{
    if n < entries.len() {
        assert(entries.drop_last().take(n) =~= entries.take(n));
        lemma_first_entry_prefix(entries.drop_last(), n, path);
    } else {
        assert(entries.take(n) =~= entries);
    }
}

/// Whether two paths are the same.
fn paths_equal(a: &DbPath, b: &DbPath) -> (eq: bool)
    ensures
        eq == (a@ == b@),
{
    if a.components.len() != b.components.len() {
        assert(a@.len() != b@.len());
        return false;
    }
    for i in 0..a.components.len()
        invariant
            a.components@.len() == b.components@.len(),
            forall|j: int| 0 <= j < i ==> a@[j] == b@[j],
    {
        if !bytes_equal(&a.components[i], &b.components[i]) {
            assert(a@[i as int] != b@[i as int]);
            return false;
        }
    }
    assert(a@ =~= b@);
    true
}

/// Whether two byte strings are the same.
fn bytes_equal(a: &Vec<u8>, b: &Vec<u8>) -> (eq: bool)
    ensures
        eq == (a@ == b@),
{
    if a.len() != b.len() {
        return false;
    }
    for i in 0..a.len()
        invariant
            a@.len() == b@.len(),
            forall|j: int| 0 <= j < i ==> a@[j] == b@[j],
    {
        if a[i] != b[i] {
            return false;
        }
    }
    assert(a@ =~= b@);
    true
}

} // verus!
