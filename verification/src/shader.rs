//! The shader playlist of a directory, hot reloading of the current shader
//! and the outcome of loading it.
use vstd::prelude::*;
use vstd::relations::*;
use vstd::seq_lib::*;
use vstd::string::*;
use vstd::arithmetic::div_mod::{
    lemma_add_mod_noop_right, lemma_mod_add_multiples_vanish, lemma_mod_self_0,
    lemma_mod_sub_multiples_vanish, lemma_small_mod,
};
use crate::order::{insert_sorted, lemma_path_order_total, path_order, paths_view};
use crate::paths::{
    file_name_of, file_stem_of, has_shader_extension, is_shader_extension, opt_view,
    path_extension, path_file_name, path_stem,
};

verus! {

/// The shader drawn when the current one cannot be read: a red screen.
pub const FALLBACK_SHADER: &'static str = r#"
struct Uniforms { resolution: vec2<f32>, mouse: vec2<f32>, time: f32, }
@group(0) @binding(0) var<uniform> u: Uniforms;
@vertex fn vs_main(@builtin(vertex_index) v_idx: u32) -> @builtin(position) vec4<f32> {
    var pos = array<vec2<f32>, 3>(vec2<f32>(-1.0, -1.0), vec2<f32>(3.0, -1.0), vec2<f32>(-1.0, 3.0));
    return vec4<f32>(pos[v_idx], 0.0, 1.0);
}
@fragment fn fs_main() -> @location(0) vec4<f32> {
    return vec4<f32>(1.0, 0.0, 0.0, 1.0); // Red screen means fallback loaded
}
"#;

/// What loading the current shader gave.
pub enum ShaderLoadResult {
    /// The compiled WGSL source, accepted by the WGSL front end.
    Success(String),
    /// The module did not compile, or its WGSL was rejected.
    CompileError,
    /// There was no file to load, or its name gives no module path.
    FileError,
}

/// One entry of the shader directory: its path and whether it is a file.
pub struct DirEntry {
    pub path: String,
    pub is_file: bool,
}

/// A directory entry that belongs in the playlist: a file whose extension
/// is `wgsl` or `wesl`.
pub open spec fn is_shader_entry(e: DirEntry) -> bool {
    e.is_file && is_shader_extension(path_extension(e.path@))
}

/// The paths of the shader entries, in directory order.
pub open spec fn shader_paths(entries: Seq<DirEntry>) -> Seq<Seq<char>>
    decreases entries.len(),
{
    if entries.len() == 0 {
        Seq::empty()
    } else {
        let rest = shader_paths(entries.drop_last());
        if is_shader_entry(entries.last()) {
            rest.push(entries.last().path@)
        } else {
            rest
        }
    }
}

/// `files` is the playlist of `entries`: their shader paths in path order.
pub open spec fn is_playlist_of(files: Seq<Seq<char>>, entries: Seq<DirEntry>) -> bool {
    &&& sorted_by(files, path_order())
    &&& files.to_multiset() == shader_paths(entries).to_multiset()
}

/// A consistent playlist: sorted, holding shader files only, with the
/// current index on a file (or 0 when there is none).
pub open spec fn playlist_ok(files: Seq<Seq<char>>, index: int) -> bool {
    &&& sorted_by(files, path_order())
    &&& forall|i: int|
        0 <= i < files.len() ==> is_shader_extension(path_extension(#[trigger] files[i]))
    &&& if files.len() == 0 {
        index == 0
    } else {
        0 <= index < files.len()
    }
}

/// The index after `i` in a playlist of `n` files, wrapping to the first.
pub open spec fn next_index(i: int, n: int) -> int {
    (i + 1) % n
}

/// The current index after a refresh that left `n` files: unchanged where
/// it is still on a file, else the first.
pub open spec fn refreshed_index(i: int, n: int) -> int {
    if i < n {
        i
    } else {
        0
    }
}

/// The index reached from `i` after `k` moves to the next file in a
/// playlist of `n` files.
pub open spec fn advance(i: int, n: int, k: nat) -> int
    decreases k,
{
    if k == 0 {
        i
    } else {
        next_index(advance(i, n, (k - 1) as nat), n)
    }
}

/// The index before `i` in a playlist of `n` files, wrapping to the last.
pub open spec fn prev_index(i: int, n: int) -> int {
    if i == 0 {
        n - 1
    } else {
        i - 1
    }
}

/// The playlist files of `entries`, in path order.
fn shader_files(entries: &Vec<DirEntry>) -> (files: Vec<String>)
    ensures
        is_playlist_of(paths_view(files@), entries@),
        forall|i: int|
            0 <= i < files@.len() ==> is_shader_extension(path_extension(#[trigger] files@[i]@)),
{
    let mut files: Vec<String> = Vec::new();
    let n = entries.len();
    let mut i: usize = 0;
    assert(entries@.take(0) =~= Seq::<DirEntry>::empty());
    assert(paths_view(files@) =~= Seq::<Seq<char>>::empty());
    while i < n
        invariant
            n == entries@.len(),
            i <= n,
            is_playlist_of(paths_view(files@), entries@.take(i as int)),
            forall|k: int|
                0 <= k < files@.len() ==> is_shader_extension(
                    path_extension(#[trigger] files@[k]@),
                ),
        decreases n - i,
    {
        let ghost before = paths_view(files@);
        let e = &entries[i];
        assert(entries@.take(i + 1).drop_last() =~= entries@.take(i as int));
        if e.is_file && has_shader_extension(e.path.as_str()) {
            let ghost ev = e.path@;
            insert_sorted(&mut files, e.path.clone());
            proof {
                broadcast use group_to_multiset_ensures;
                assert forall|k: int| 0 <= k < files@.len() implies is_shader_extension(
                    path_extension(#[trigger] files@[k]@),
                ) by {
                    if files@[k]@ != ev {
                        let j = choose|j: int| 0 <= j < before.len() && before[j] == files@[k]@;
                    }
                }
            }
        }
        i = i + 1;
    }
    assert(entries@.take(n as int) =~= entries@);
    files
}

/// The shader files of a directory, in path order, and the one that is
/// current.
pub struct ShaderPlaylist {
    dir: String,
    files: Vec<String>,
    current_index: usize,
}

impl ShaderPlaylist {
    #[verifier::type_invariant]
    spec fn consistent(self) -> bool {
        playlist_ok(paths_view(self.files@), self.current_index as int)
    }

    /// The playlist's directory.
    pub closed spec fn dir_view(&self) -> Seq<char> {
        self.dir@
    }

    /// The playlist's files, in order.
    pub closed spec fn files_view(&self) -> Seq<Seq<char>> {
        paths_view(self.files@)
    }

    /// The index of the current file.
    pub closed spec fn index(&self) -> int {
        self.current_index as int
    }

    /// The current file, if the playlist has any.
    pub open spec fn current_file(&self) -> Option<Seq<char>> {
        if self.files_view().len() == 0 {
            None
        } else {
            Some(self.files_view()[self.index()])
        }
    }

    /// A playlist of the shader files among `entries`, the entries of `dir`,
    /// starting at the first.
    pub fn new(dir: String, entries: &Vec<DirEntry>) -> (p: Self)
        ensures
            p.dir_view() == dir@,
            is_playlist_of(p.files_view(), entries@),
            p.index() == 0,
            playlist_ok(p.files_view(), p.index()),
    {
        let files = shader_files(entries);
        ShaderPlaylist { dir, files, current_index: 0 }
    }

    /// Replaces the files with the shader files among `entries`; the current
    /// index stays where it is still on a file, else goes back to the first.
    pub fn refresh(&mut self, entries: &Vec<DirEntry>)
        ensures
            final(self).dir_view() == old(self).dir_view(),
            is_playlist_of(final(self).files_view(), entries@),
            final(self).index() == refreshed_index(
                old(self).index(),
                final(self).files_view().len() as int,
            ),
            playlist_ok(final(self).files_view(), final(self).index()),
    {
        let files = shader_files(entries);
        let index = if self.current_index >= files.len() {
            0
        } else {
            self.current_index
        };
        let dir = self.dir.clone();
        *self = ShaderPlaylist { dir, files, current_index: index };
    }

    /// The current file, or `None` when the playlist is empty.
    pub fn current(&self) -> (c: Option<&String>)
        ensures
            c is Some <==> self.files_view().len() > 0,
            match c {
                Some(f) => self.current_file() == Some(f@),
                None => self.current_file() is None,
            },
            playlist_ok(self.files_view(), self.index()),
    {
        proof {
            use_type_invariant(self);
        }
        if self.current_index < self.files.len() {
            Some(&self.files[self.current_index])
        } else {
            None
        }
    }

    /// Moves to the next file, from the last back to the first; `false`,
    /// and no change, when the playlist is empty.
    pub fn next(&mut self) -> (moved: bool)
        ensures
            moved == (old(self).files_view().len() > 0),
            !moved ==> *final(self) == *old(self),
            final(self).files_view() == old(self).files_view(),
            final(self).dir_view() == old(self).dir_view(),
            final(self).index() == if moved {
                next_index(old(self).index(), old(self).files_view().len() as int)
            } else {
                old(self).index()
            },
            playlist_ok(final(self).files_view(), final(self).index()),
    {
        proof {
            use_type_invariant(&*self);
        }
        if self.files.len() == 0 {
            return false;
        }
        self.current_index = (self.current_index + 1) % self.files.len();
        proof {
            use_type_invariant(&*self);
        }
        true
    }

    /// Moves to the previous file, from the first to the last; `false`,
    /// and no change, when the playlist is empty.
    pub fn prev(&mut self) -> (moved: bool)
        ensures
            moved == (old(self).files_view().len() > 0),
            !moved ==> *final(self) == *old(self),
            final(self).files_view() == old(self).files_view(),
            final(self).dir_view() == old(self).dir_view(),
            final(self).index() == if moved {
                prev_index(old(self).index(), old(self).files_view().len() as int)
            } else {
                old(self).index()
            },
            playlist_ok(final(self).files_view(), final(self).index()),
    {
        proof {
            use_type_invariant(&*self);
        }
        if self.files.len() == 0 {
            return false;
        }
        if self.current_index == 0 {
            self.current_index = self.files.len() - 1;
        } else {
            self.current_index = self.current_index - 1;
        }
        proof {
            use_type_invariant(&*self);
        }
        true
    }

    /// The playlist's directory.
    pub fn dir(&self) -> (d: &String)
        ensures
            d@ == self.dir_view(),
    {
        &self.dir
    }

    /// The playlist's files, in order.
    pub fn files(&self) -> (f: &Vec<String>)
        ensures
            paths_view(f@) == self.files_view(),
    {
        &self.files
    }

    /// The index of the current file.
    pub fn current_index(&self) -> (i: usize)
        ensures
            i == self.index(),
    {
        self.current_index
    }
}

/// The text `package::`, which starts a module path of the shader package.
pub open spec fn package_prefix() -> Seq<char> {
    seq!['p', 'a', 'c', 'k', 'a', 'g', 'e', ':', ':']
}

/// The module path of a shader file with the given stem.
pub open spec fn package_module_of(stem: Seq<char>) -> Seq<char> {
    package_prefix() + stem
}

/// The first step of loading the current shader.
pub enum ShaderLoadStep {
    /// Compile the module at `module_name` of the package in `dir`.
    Compile { dir: String, module_name: String },
    /// Loading is over before compiling, with this result.
    Done(ShaderLoadResult),
}

/// Whether the WGSL front end (naga's `wgsl::parse_str`) accepts `source`.
pub uninterp spec fn wgsl_parses(source: Seq<char>) -> bool;

/// Calls `wgpu::naga::front::wgsl::parse_str` on `source` and tells whether
/// it returned `Ok`.  Claimed: the answer is `wgsl_parses` of the source,
/// the front end being a function of its input.  Not stated: the parsed
/// module, which is dropped; the front end may also exhaust the stack on
/// deeply nested input, which no clause excludes.
#[verifier::external_body]
fn wgsl_source_parses(source: &str) -> (ok: bool)
    ensures
        ok == wgsl_parses(source@),
{
    wgpu::naga::front::wgsl::parse_str(source).is_ok()
}

/// Whether a file event at `path` reloads the current file `current`: the
/// event is on a shader file with the current file's name.
pub open spec fn reloads_current(path: Seq<char>, current: Option<Seq<char>>) -> bool {
    &&& is_shader_extension(path_extension(path))
    &&& current is Some
    &&& path_file_name(path) == path_file_name(current->0)
}

/// The last event among `events` that reloads the current file.
pub open spec fn last_reload(events: Seq<Seq<char>>, current: Option<Seq<char>>) -> Option<
    Seq<char>,
>
    decreases events.len(),
{
    if events.len() == 0 {
        None
    } else if reloads_current(events.last(), current) {
        Some(events.last())
    } else {
        last_reload(events.drop_last(), current)
    }
}

/// Whether recording the modification time `t`, where `last` is recorded,
/// reports the file as changed.
pub open spec fn reports_modification(last: Option<i128>, t: Option<i128>) -> bool {
    t != last
}

/// Whether two optional strings are equal.
fn same_name(a: &Option<String>, b: &Option<String>) -> (r: bool)
    ensures
        r == (opt_view(*a) == opt_view(*b)),
{
    match (a, b) {
        (Some(x), Some(y)) => x.eq(y),
        (None, None) => true,
        _ => false,
    }
}

/// Loads shaders from a directory's playlist, and tells when the current one
/// was changed on disk.
pub struct ShaderController {
    /// The shader files of the directory.
    pub playlist: ShaderPlaylist,
    /// The file to load.
    pub shader_path: Option<String>,
    /// When the file to load was last modified, in nanoseconds from the
    /// Unix epoch (negative before it), where that was known.
    pub last_modified: Option<i128>,
}

impl ShaderController {
    /// A controller for `dir`, whose entries are `entries`, set to the first
    /// shader of its playlist.
    pub fn new(dir: String, entries: &Vec<DirEntry>) -> (c: Self)
        ensures
            c.playlist.dir_view() == dir@,
            is_playlist_of(c.playlist.files_view(), entries@),
            c.playlist.index() == 0,
            opt_view(c.shader_path) == c.playlist.current_file(),
            c.last_modified is None,
    {
        let playlist = ShaderPlaylist::new(dir, entries);
        let first = match playlist.current() {
            Some(p) => Some(p.clone()),
            None => None,
        };
        ShaderController { playlist, shader_path: first, last_modified: None }
    }

    /// The source to draw for a load result: the compiled source, nothing
    /// when it did not compile, the fallback shader when there was no file.
    pub fn get_shader_source(load: ShaderLoadResult) -> (source: Option<String>)
        ensures
            match load {
                ShaderLoadResult::Success(s) => source == Some(s),
                ShaderLoadResult::CompileError => source is None,
                ShaderLoadResult::FileError => source matches Some(f) && f@ == FALLBACK_SHADER@,
            },
    {
        match load {
            ShaderLoadResult::Success(source) => Some(source),
            ShaderLoadResult::CompileError => None,
            ShaderLoadResult::FileError => Some(String::from_str(FALLBACK_SHADER)),
        }
    }

    /// The first step of loading the current shader: a file error where
    /// there is no file or it has no stem, else the module path
    /// `package::<stem>` to compile in the playlist's directory.
    pub fn prepare_shader_load(&self) -> (step: ShaderLoadStep)
        ensures
            match self.shader_path {
                None => step matches ShaderLoadStep::Done(ShaderLoadResult::FileError),
                Some(p) => match path_stem(p@) {
                    None => step matches ShaderLoadStep::Done(ShaderLoadResult::FileError),
                    Some(stem) => step matches ShaderLoadStep::Compile { dir, module_name }
                        && dir@ == self.playlist.dir_view() && module_name@
                        == package_module_of(stem),
                },
            },
    {
        match &self.shader_path {
            None => ShaderLoadStep::Done(ShaderLoadResult::FileError),
            Some(path) => match file_stem_of(path.as_str()) {
                None => ShaderLoadStep::Done(ShaderLoadResult::FileError),
                Some(stem) => {
                    let mut module_name = String::from_str("package::");
                    module_name.append(stem.as_str());
                    proof {
                        reveal_strlit("package::");
                        assert("package::"@ =~= package_prefix());
                    }
                    ShaderLoadStep::Compile { dir: self.playlist.dir().clone(), module_name }
                },
            },
        }
    }

    /// The last step of loading: the compiled WGSL when the front end
    /// accepts it, else a compile error; `None` means the module did not
    /// compile.
    pub fn complete_shader_load(compiled: Option<String>) -> (load: ShaderLoadResult)
        ensures
            match compiled {
                Some(code) => if wgsl_parses(code@) {
                    load == ShaderLoadResult::Success(code)
                } else {
                    load is CompileError
                },
                None => load is CompileError,
            },
    {
        match compiled {
            Some(code) => {
                if wgsl_source_parses(code.as_str()) {
                    ShaderLoadResult::Success(code)
                } else {
                    ShaderLoadResult::CompileError
                }
            },
            None => ShaderLoadResult::CompileError,
        }
    }

    /// Among the file events `events`, in the order they came, the last one
    /// on a shader file with the name of the playlist's current file.
    pub fn hot_reload_candidate(&self, events: &Vec<String>) -> (path: Option<String>)
        ensures
            opt_view(path) == last_reload(paths_view(events@), self.playlist.current_file()),
    {
        let ghost cur = self.playlist.current_file();
        let ghost ev = paths_view(events@);
        let current = self.playlist.current();
        let current_name = match current {
            Some(c) => Some(file_name_of(c.as_str())),
            None => None,
        };
        let mut hot: Option<String> = None;
        let n = events.len();
        let mut i: usize = 0;
        while i < n
            invariant
                n == events@.len(),
                ev == paths_view(events@),
                i <= n,
                current_name is Some <==> cur is Some,
                current_name matches Some(cn) ==> opt_view(cn) == path_file_name(cur->0),
                opt_view(hot) == last_reload(ev.take(i as int), cur),
            decreases n - i,
        {
            let p = &events[i];
            assert(ev.take(i + 1).drop_last() =~= ev.take(i as int));
            let matches = match &current_name {
                Some(cn) => has_shader_extension(p.as_str()) && same_name(&file_name_of(p.as_str()), cn),
                None => false,
            };
            if matches {
                hot = Some(p.clone());
            }
            i = i + 1;
        }
        assert(ev.take(n as int) =~= ev);
        hot
    }

    /// Records the modification time `new_time` of the file `path` that an
    /// event reloads; `path` is reported when the time differs from the
    /// recorded one, which it then replaces.
    pub fn record_modification(&mut self, path: String, new_time: Option<i128>) -> (changed:
        Option<String>)
        ensures
            reports_modification(old(self).last_modified, new_time) ==> changed == Some(path)
                && final(self).last_modified == new_time,
            !reports_modification(old(self).last_modified, new_time) ==> changed is None
                && final(self).last_modified == old(self).last_modified,
            final(self).shader_path == old(self).shader_path,
            final(self).playlist == old(self).playlist,
    {
        let same = match (new_time, self.last_modified) {
            (Some(a), Some(b)) => a == b,
            (None, None) => true,
            _ => false,
        };
        if same {
            None
        } else {
            self.last_modified = new_time;
            Some(path)
        }
    }

    /// Moves the playlist to its next file and makes that the file to load,
    /// which is returned so that its modification time can be recorded;
    /// nothing changes when the playlist is empty.
    pub fn handle_playlist_next(&mut self) -> (path: Option<String>)
        ensures
            path is Some <==> old(self).playlist.files_view().len() > 0,
            final(self).playlist.files_view() == old(self).playlist.files_view(),
            final(self).playlist.dir_view() == old(self).playlist.dir_view(),
            path is Some ==> final(self).playlist.index() == next_index(
                old(self).playlist.index(),
                old(self).playlist.files_view().len() as int,
            ) && opt_view(path) == final(self).playlist.current_file() && opt_view(
                final(self).shader_path,
            ) == opt_view(path),
            path is None ==> final(self).playlist == old(self).playlist
                && final(self).shader_path == old(self).shader_path,
            final(self).last_modified == old(self).last_modified,
    {
        if self.playlist.next() {
            if let Some(p) = self.playlist.current() {
                let p = p.clone();
                self.shader_path = Some(p.clone());
                return Some(p);
            }
        }
        None
    }

    /// Moves the playlist to its previous file and makes that the file to
    /// load, which is returned so that its modification time can be
    /// recorded; nothing changes when the playlist is empty.
    pub fn handle_playlist_prev(&mut self) -> (path: Option<String>)
        ensures
            path is Some <==> old(self).playlist.files_view().len() > 0,
            final(self).playlist.files_view() == old(self).playlist.files_view(),
            final(self).playlist.dir_view() == old(self).playlist.dir_view(),
            path is Some ==> final(self).playlist.index() == prev_index(
                old(self).playlist.index(),
                old(self).playlist.files_view().len() as int,
            ) && opt_view(path) == final(self).playlist.current_file() && opt_view(
                final(self).shader_path,
            ) == opt_view(path),
            path is None ==> final(self).playlist == old(self).playlist
                && final(self).shader_path == old(self).shader_path,
            final(self).last_modified == old(self).last_modified,
    {
        if self.playlist.prev() {
            if let Some(p) = self.playlist.current() {
                let p = p.clone();
                self.shader_path = Some(p.clone());
                return Some(p);
            }
        }
        None
    }
}

/// Moving back undoes moving forward, and moving forward undoes moving
/// back, on a playlist of `n` files.
pub proof fn lemma_prev_undoes_next(i: int, n: int)
    requires
        0 <= i < n,
    ensures
        0 <= next_index(i, n) < n,
        0 <= prev_index(i, n) < n,
        prev_index(next_index(i, n), n) == i,
        next_index(prev_index(i, n), n) == i,
{
    if i + 1 < n {
        lemma_small_mod((i + 1) as nat, n as nat);
    } else {
        lemma_mod_self_0(n);
    }
    if i == 0 {
        lemma_mod_self_0(n);
    } else {
        lemma_small_mod(i as nat, n as nat);
    }
}

proof fn lemma_advance_mod(i: int, n: int, k: nat)
    requires
        0 <= i < n,
    ensures
        advance(i, n, k) == (i + k) % n,
    decreases k,
{
    if k == 0 {
        lemma_small_mod(i as nat, n as nat);
    } else {
        lemma_advance_mod(i, n, (k - 1) as nat);
        lemma_add_mod_noop_right(1, i + k - 1, n);
    }
}

/// Moving to the next file as many times as the playlist has files comes
/// back to the file it started on, and not sooner.
pub proof fn lemma_next_cycles(i: int, n: int)
    requires
        0 <= i < n,
    ensures
        advance(i, n, n as nat) == i,
        forall|k: nat| 0 < k < n ==> #[trigger] advance(i, n, k) != i,
{
    lemma_advance_mod(i, n, n as nat);
    lemma_mod_add_multiples_vanish(i, n);
    lemma_small_mod(i as nat, n as nat);
    assert forall|k: nat| 0 < k < n implies #[trigger] advance(i, n, k) != i by {
        lemma_advance_mod(i, n, k);
        if i + k < n {
            lemma_small_mod((i + k) as nat, n as nat);
        } else {
            lemma_mod_sub_multiples_vanish(i + k, n);
            lemma_small_mod((i + k - n) as nat, n as nat);
        }
    }
}

/// The playlist of a directory's entries is determined by them: two
/// playlists of the same entries are equal, so a refresh with unchanged
/// entries keeps the files and the current index.
pub proof fn lemma_playlist_unique(a: Seq<Seq<char>>, b: Seq<Seq<char>>, entries: Seq<DirEntry>, i: int)
    requires
        is_playlist_of(a, entries),
        is_playlist_of(b, entries),
    ensures
        a == b,
        refreshed_index(refreshed_index(i, a.len() as int), b.len() as int) == refreshed_index(
            i,
            a.len() as int,
        ),
{
    lemma_path_order_total();
    lemma_sorted_unique(a, b, path_order());
}

/// A reported modification time is recorded, so reporting the same time
/// again reports nothing.
pub proof fn lemma_modification_reported_once(t: Option<i128>)
    ensures
        !reports_modification(t, t),
{
}

/// What a hot reload picks is one of the events, on a shader file with the
/// current file's name; with no such event it picks nothing.
pub proof fn lemma_reload_is_matching_event(events: Seq<Seq<char>>, current: Option<Seq<char>>)
    ensures
        last_reload(events, current) matches Some(p) ==> events.contains(p) && reloads_current(
            p,
            current,
        ),
        (forall|i: int| 0 <= i < events.len() ==> !reloads_current(#[trigger] events[i], current))
            ==> last_reload(events, current) is None,
    decreases events.len(),
{
    if events.len() > 0 {
        lemma_reload_is_matching_event(events.drop_last(), current);
        if let Some(p) = last_reload(events, current) {
            if !reloads_current(events.last(), current) {
                let j = choose|j: int| 0 <= j < events.drop_last().len() && events.drop_last()[j] == p;
                assert(events[j] == p);
            } else {
                assert(events[events.len() - 1] == p);
            }
        }
        if forall|i: int| 0 <= i < events.len() ==> !reloads_current(#[trigger] events[i], current) {
            assert(!reloads_current(events[events.len() - 1], current));
            assert forall|i: int| 0 <= i < events.drop_last().len() implies !reloads_current(
                #[trigger] events.drop_last()[i],
                current,
            ) by {
                assert(events.drop_last()[i] == events[i]);
            }
        }
    }
}

/// Moving to the next file goes one file further, and from the last file
/// to the first; moving back goes one file back, and from the first file to
/// the last.
pub proof fn lemma_next_prev_steps(i: int, n: int)
    requires
        0 <= i < n,
    ensures
        i + 1 < n ==> next_index(i, n) == i + 1,
        i + 1 == n ==> next_index(i, n) == 0,
        i > 0 ==> prev_index(i, n) == i - 1,
        i == 0 ==> prev_index(i, n) == n - 1,
{
    if i + 1 < n {
        lemma_small_mod((i + 1) as nat, n as nat);
    } else {
        lemma_mod_self_0(n);
    }
}

/// A refresh keeps the current index when the refreshed playlist still has
/// a file there, and goes back to the first file otherwise.
pub proof fn lemma_refresh_index(i: int, n: int)
    requires
        0 <= i,
        0 <= n,
    ensures
        i < n ==> refreshed_index(i, n) == i,
        i >= n ==> refreshed_index(i, n) == 0,
{
}

/// A file's modification time is reported exactly when it differs from the
/// recorded one: any other time (later, earlier, newly known or no longer
/// known) is reported, the recorded one is not.
pub proof fn lemma_modification_reported_when_different(last: Option<i128>, t: Option<i128>)
    ensures
        reports_modification(last, t) <==> t != last,
        (last matches Some(a) && t matches Some(b) && a != b) ==> reports_modification(last, t),
        (last is None && t is Some) ==> reports_modification(last, t),
        (last is Some && t is None) ==> reports_modification(last, t),
{
}

/// A hot reload picks the last event that is on a shader file with the
/// current file's name: where event `k` is such an event and none after it
/// is, the pick is event `k`.
pub proof fn lemma_reload_picks_last_match(
    events: Seq<Seq<char>>,
    current: Option<Seq<char>>,
    k: int,
)
    requires
        0 <= k < events.len(),
        reloads_current(events[k], current),
        forall|j: int| k < j < events.len() ==> !reloads_current(#[trigger] events[j], current),
    ensures
        last_reload(events, current) == Some(events[k]),
    decreases events.len(),
{
    if k < events.len() - 1 {
        assert(!reloads_current(events[events.len() - 1], current));
        let rest = events.drop_last();
        assert forall|j: int| k < j < rest.len() implies !reloads_current(#[trigger] rest[j], current) by {
            assert(rest[j] == events[j]);
        }
        lemma_reload_picks_last_match(rest, current, k);
    }
}

/// An event reloads the current file exactly when it is on a `wgsl` or
/// `wesl` file whose name is the current file's name; with no current file
/// nothing reloads.
pub proof fn lemma_reload_condition(path: Seq<char>, current: Option<Seq<char>>)
    ensures
        reloads_current(path, current) <==> (current is Some && (path_extension(path) == Some(
            seq!['w', 'g', 's', 'l'],
        ) || path_extension(path) == Some(seq!['w', 'e', 's', 'l'])) && path_file_name(path)
            == path_file_name(current->0)),
{
}

/// The shader paths of a directory are the paths of its entries that are
/// files with a `wgsl` or `wesl` extension, each as often as it occurs
/// among them, and no others.
pub proof fn lemma_shader_paths_members(entries: Seq<DirEntry>, p: Seq<char>)
    ensures
        shader_paths(entries).contains(p) <==> exists|i: int|
            0 <= i < entries.len() && (#[trigger] entries[i]).is_file && entries[i].path@ == p
                && (path_extension(p) == Some(seq!['w', 'g', 's', 'l']) || path_extension(p)
                == Some(seq!['w', 'e', 's', 'l'])),
        shader_paths(entries).len() <= entries.len(),
    decreases entries.len(),
{
    if entries.len() > 0 {
        let rest = entries.drop_last();
        lemma_shader_paths_members(rest, p);
        let last = entries.last();
        let sp = shader_paths(entries);
        let rp = shader_paths(rest);
        if shader_paths(entries).contains(p) {
            let k = choose|k: int| 0 <= k < sp.len() && sp[k] == p;
            if is_shader_entry(last) && k == rp.len() {
                assert(entries[entries.len() - 1] == last);
            } else {
                assert(rp[k] == p);
                let i = choose|i: int|
                    0 <= i < rest.len() && (#[trigger] rest[i]).is_file && rest[i].path@ == p && (
                    path_extension(p) == Some(seq!['w', 'g', 's', 'l']) || path_extension(p)
                        == Some(seq!['w', 'e', 's', 'l']));
                assert(entries[i] == rest[i]);
            }
        }
        if exists|i: int|
            0 <= i < entries.len() && (#[trigger] entries[i]).is_file && entries[i].path@ == p && (
            path_extension(p) == Some(seq!['w', 'g', 's', 'l']) || path_extension(p) == Some(
                seq!['w', 'e', 's', 'l'],
            )) {
            let i = choose|i: int|
                0 <= i < entries.len() && (#[trigger] entries[i]).is_file && entries[i].path@ == p
                    && (path_extension(p) == Some(seq!['w', 'g', 's', 'l']) || path_extension(p)
                    == Some(seq!['w', 'e', 's', 'l']));
            if i == entries.len() - 1 {
                assert(entries[i] == last);
                assert(sp[sp.len() - 1] == p);
            } else {
                assert(rest[i] == entries[i]);
                let k = choose|k: int| 0 <= k < rp.len() && rp[k] == p;
                assert(sp[k] == p);
            }
        }
    }
}

/// The module loaded for a file is `package::` followed by its stem.
pub proof fn lemma_package_module(stem: Seq<char>)
    ensures
        package_module_of(stem).len() == 9 + stem.len(),
        package_module_of(stem).take(9) == seq!['p', 'a', 'c', 'k', 'a', 'g', 'e', ':', ':'],
        package_module_of(stem).skip(9) == stem,
{
    assert(package_module_of(stem).take(9) =~= seq!['p', 'a', 'c', 'k', 'a', 'g', 'e', ':', ':']);
    assert(package_module_of(stem).skip(9) =~= stem);
}

/// An empty directory has no shader paths, and adding an entry to a
/// directory adds its path at the end exactly when it is a file with a
/// `wgsl` or `wesl` extension, leaving the paths before it as they were.
pub proof fn lemma_shader_paths_grow(entries: Seq<DirEntry>, e: DirEntry)
    ensures
        shader_paths(Seq::<DirEntry>::empty()) == Seq::<Seq<char>>::empty(),
        (e.is_file && (path_extension(e.path@) == Some(seq!['w', 'g', 's', 'l'])
            || path_extension(e.path@) == Some(seq!['w', 'e', 's', 'l'])))
            ==> shader_paths(entries.push(e)) == shader_paths(entries).push(e.path@),
        !(e.is_file && (path_extension(e.path@) == Some(seq!['w', 'g', 's', 'l'])
            || path_extension(e.path@) == Some(seq!['w', 'e', 's', 'l'])))
            ==> shader_paths(entries.push(e)) == shader_paths(entries),
{
    assert(entries.push(e).drop_last() =~= entries);
}

} // verus!
