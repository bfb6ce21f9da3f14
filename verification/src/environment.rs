use vstd::prelude::*;
use vstd::string::StringExecFns;

use crate::string_map::StringMap;

verus! {

/// The working state of the builder: the map under construction and the
/// install directory that archive-relative paths are derived from.
pub struct Environment {
    pub env: StringMap,
    pub root_dir: String,
}

impl Environment {
    pub open spec fn wf(&self) -> bool {
        self.env.wf()
    }
}

/// The prefix under which every inherited variable keeps a shadow copy.
pub open spec fn shadow_prefix() -> Seq<char> {
    "OS_ENV_"@
}

/// The shadow name of an inherited variable.
pub open spec fn shadow_key(name: Seq<char>) -> Seq<char> {
    shadow_prefix() + name
}

/// Names of the host package-manager variables that are never forwarded bare.
pub open spec fn suppressed(name: Seq<char>) -> bool {
    name == "GEM_PATH"@ || name == "GEM_HOME"@ || name == "GEM_ROOT"@
}

/// One inherited pair entering the working map: the shadow copy always, the
/// bare copy only for names outside the suppression set.
pub open spec fn copy_step(
    m: Map<Seq<char>, Seq<char>>,
    name: Seq<char>,
    value: Seq<char>,
) -> Map<Seq<char>, Seq<char>> {
    let m1 = m.insert(shadow_key(name), value);
    if suppressed(name) {
        m1
    } else {
        m1.insert(name, value)
    }
}

/// The working map after the whole inherited snapshot is copied in.
pub open spec fn copied_env(snapshot: Seq<(Seq<char>, Seq<char>)>) -> Map<Seq<char>, Seq<char>>
    decreases snapshot.len(),
{
    if snapshot.len() == 0 {
        Map::<Seq<char>, Seq<char>>::empty()
    } else {
        copy_step(copied_env(snapshot.drop_last()), snapshot.last().0, snapshot.last().1)
    }
}

/// Decides membership in the suppression set.
pub fn is_suppressed_name(name: &str) -> (r: bool)
    ensures
        r == suppressed(name@),
{
    let owned: String = name.to_owned();
    owned == "GEM_PATH".to_owned() || owned == "GEM_HOME".to_owned() || owned
        == "GEM_ROOT".to_owned()
}

/// Copies the inherited snapshot into a fresh working map: every pair gets a
/// prefixed shadow entry, and a bare entry unless its name is suppressed.
pub fn copy_environment(snapshot: &Vec<(String, String)>) -> (r: StringMap)
    ensures
        r.wf(),
        r@ == copied_env(snapshot.deep_view()),
{
    let mut environment = StringMap::new();
    let n = snapshot.len();
    let mut i: usize = 0;
    proof {
        assert(snapshot.deep_view().take(0) =~= Seq::<(Seq<char>, Seq<char>)>::empty());
    }
    while i < n
        invariant
            environment.wf(),
            n == snapshot@.len(),
            snapshot.deep_view().len() == n,
            i <= n,
            environment@ == copied_env(snapshot.deep_view().take(i as int)),
        decreases n - i,
    {
        let name = snapshot[i].0.clone();
        let value = snapshot[i].1.clone();
        let mut os_key = "OS_ENV_".to_owned();
        os_key.append(name.as_str());
        environment.insert(os_key, value);
        if !is_suppressed_name(name.as_str()) {
            let bare_value = snapshot[i].1.clone();
            environment.insert(name, bare_value);
        }
        proof {
            let dv = snapshot.deep_view();
            assert(dv.take(i + 1).drop_last() =~= dv.take(i as int));
            assert(dv.take(i + 1).last() == dv[i as int]);
            assert(dv[i as int] == (snapshot@[i as int].0@, snapshot@[i as int].1@));
        }
        i += 1;
    }
    proof {
        assert(snapshot.deep_view().take(n as int) =~= snapshot.deep_view());
    }
    environment
}

/// The parts joined with the platform path-list separator.
pub open spec fn join_colon(parts: Seq<Seq<char>>) -> Seq<char>
    decreases parts.len(),
{
    if parts.len() == 0 {
        Seq::<char>::empty()
    } else if parts.len() == 1 {
        parts[0]
    } else {
        join_colon(parts.drop_last()) + ":"@ + parts.last()
    }
}

/// Each suffix concatenated directly onto the root directory, in order.
pub open spec fn prefixed_paths(root: Seq<char>, suffixes: Seq<Seq<char>>) -> Seq<Seq<char>> {
    Seq::new(suffixes.len(), |i: int| root + suffixes[i])
}

/// The current binding of `name`, as a trailing segment list.
pub open spec fn current_segment(m: Map<Seq<char>, Seq<char>>, name: Seq<char>) -> Seq<
    Seq<char>,
> {
    if m.dom().contains(name) {
        seq![m[name]]
    } else {
        Seq::<Seq<char>>::empty()
    }
}

/// The value a patch rule gives to `name`: the root-prefixed suffixes, then
/// the previous value if there was one, joined with `:`.
pub open spec fn patched_value(
    m: Map<Seq<char>, Seq<char>>,
    root: Seq<char>,
    name: Seq<char>,
    suffixes: Seq<Seq<char>>,
) -> Seq<char> {
    join_colon(prefixed_paths(root, suffixes) + current_segment(m, name))
}

/// The working map after one patch rule is applied.
pub open spec fn patch_step(
    m: Map<Seq<char>, Seq<char>>,
    root: Seq<char>,
    name: Seq<char>,
    suffixes: Seq<Seq<char>>,
) -> Map<Seq<char>, Seq<char>> {
    m.insert(name, patched_value(m, root, name, suffixes))
}

fn join_colon_exec(parts: &Vec<String>) -> (r: String)
    ensures
        r@ == join_colon(parts.deep_view()),
{
    if parts.len() == 0 {
        let empty = String::new();
        proof {
            assert(parts.deep_view().len() == 0);
        }
        return empty;
    }
    let mut joined = parts[0].clone();
    proof {
        let dv = parts.deep_view();
        assert(dv.take(1).len() == 1);
        assert(dv.take(1)[0] == dv[0]);
    }
    let n = parts.len();
    let mut i: usize = 1;
    while i < n
        invariant
            1 <= i <= n,
            n == parts@.len(),
            parts.deep_view().len() == n,
            joined@ == join_colon(parts.deep_view().take(i as int)),
        decreases n - i,
    {
        joined.append(":");
        joined.append(parts[i].as_str());
        proof {
            let dv = parts.deep_view();
            assert(dv.take(i + 1).drop_last() =~= dv.take(i as int));
            assert(dv.take(i + 1).last() == dv[i as int]);
        }
        i += 1;
    }
    proof {
        assert(parts.deep_view().take(n as int) =~= parts.deep_view());
    }
    joined
}

/// Applies one patch rule: prepends the root-prefixed suffixes to the current
/// value of `variable` (or inserts the joined suffixes alone, possibly empty).
pub fn patch_variable(variable: &str, paths: Vec<&str>, environment: &mut Environment)
    requires
        old(environment).wf(),
    ensures
        final(environment).wf(),
        final(environment).env@ == patch_step(
            old(environment).env@,
            old(environment).root_dir@,
            variable@,
            paths.deep_view(),
        ),
        final(environment).root_dir == old(environment).root_dir,
{
    let mut printed_paths: Vec<String> = Vec::new();
    let n = paths.len();
    let mut i: usize = 0;
    proof {
        assert(printed_paths.deep_view() =~= prefixed_paths(
            environment.root_dir@,
            paths.deep_view().take(0),
        ));
    }
    while i < n
        invariant
            *environment == *old(environment),
            environment.wf(),
            n == paths@.len(),
            paths.deep_view().len() == n,
            i <= n,
            printed_paths.deep_view() == prefixed_paths(
                environment.root_dir@,
                paths.deep_view().take(i as int),
            ),
        decreases n - i,
    {
        let mut entry = environment.root_dir.clone();
        entry.append(paths[i]);
        let ghost old_dv = printed_paths.deep_view();
        printed_paths.push(entry);
        proof {
            let dv = paths.deep_view();
            let root = environment.root_dir@;
            assert(old_dv.len() == i);
            assert(printed_paths.deep_view().len() == i + 1);
            assert(printed_paths.deep_view()[i as int] == entry@);
            assert(dv[i as int] == paths@[i as int]@);
            assert(entry@ == root + dv[i as int]);
            assert forall|j: int| 0 <= j < i + 1 implies printed_paths.deep_view()[j]
                == prefixed_paths(root, dv.take(i + 1))[j] by {
                assert(prefixed_paths(root, dv.take(i + 1))[j] == root + dv.take(i + 1)[j]);
                assert(dv.take(i + 1)[j] == dv[j]);
                if j < i {
                    assert(printed_paths.deep_view()[j] == old_dv[j]);
                    assert(old_dv[j] == prefixed_paths(root, dv.take(i as int))[j]);
                    assert(prefixed_paths(root, dv.take(i as int))[j] == root + dv.take(
                        i as int,
                    )[j]);
                    assert(dv.take(i as int)[j] == dv[j]);
                }
            }
            assert(printed_paths.deep_view() =~= prefixed_paths(root, dv.take(i + 1)));
        }
        i += 1;
    }
    proof {
        assert(paths.deep_view().take(n as int) =~= paths.deep_view());
    }
    let mut parts = printed_paths;
    let ghost base_dv = parts.deep_view();
    let current = environment.env.get(variable);
    let has_current = match current {
        Some(value) => {
            let trailing = value.clone();
            parts.push(trailing);
            true
        },
        None => false,
    };
    proof {
        let expect = prefixed_paths(environment.root_dir@, paths.deep_view())
            + current_segment(environment.env@, variable@);
        if has_current {
            assert(parts.deep_view().len() == base_dv.len() + 1);
            assert(forall|j: int| 0 <= j < base_dv.len() ==> parts.deep_view()[j] == base_dv[j]);
            assert(parts.deep_view()[base_dv.len() as int] == environment.env@[variable@]);
        }
        assert(expect.len() == parts.deep_view().len());
        assert forall|j: int| 0 <= j < parts.deep_view().len() implies parts.deep_view()[j]
            == expect[j] by {
            if j < base_dv.len() {
                assert(expect[j] == base_dv[j]);
            } else {
                assert(expect[j] == current_segment(environment.env@, variable@)[0]);
            }
        }
        assert(parts.deep_view() =~= expect);
    }
    let new_value = join_colon_exec(&parts);
    let owned_variable = variable.to_owned();
    environment.env.insert(owned_variable, new_value);
}

/// The working map after the whole fixed patch rule table is applied, in
/// rule order.
pub open spec fn rules_applied(m: Map<Seq<char>, Seq<char>>, root: Seq<char>) -> Map<
    Seq<char>,
    Seq<char>,
> {
    let m1 = patch_step(m, root, "PATH"@, seq!["/usr/bin"@]);
    let m2 = patch_step(
        m1,
        root,
        "LD_LIBRARY_PATH"@,
        seq!["/usr/lib"@, "/usr/lib/x86_64-linux-gnu"@, "/usr/lib64"@],
    );
    let m3 = patch_step(m2, root, "PYTHONPATH"@, seq!["/usr/share/pyshared"@]);
    let m4 = patch_step(m3, root, "XDG_DATA_DIRS"@, seq!["/usr/share"@]);
    let m5 = patch_step(m4, root, "PERLLIB"@, seq!["/usr/share/perl5"@, "/usr/lib/perl5"@]);
    let m6 = patch_step(m5, root, "GSETTINGS_SCHEMA_DIR"@, seq!["/usr/share/glib-2.0/schemas/"@]);
    patch_step(m6, root, "QT_PLUGIN_PATH"@, Seq::<Seq<char>>::empty())
}

/// Applies the fixed patch rule table: each search-path variable is prepended
/// with its archive-relative directories.
pub fn patch_variables(environment: &mut Environment)
    requires
        old(environment).wf(),
    ensures
        final(environment).wf(),
        final(environment).env@ == rules_applied(
            old(environment).env@,
            old(environment).root_dir@,
        ),
        final(environment).root_dir == old(environment).root_dir,
{
    let mut p1: Vec<&str> = Vec::new();
    p1.push("/usr/bin");
    proof {
        assert(p1.deep_view() =~= seq!["/usr/bin"@]);
    }
    patch_variable("PATH", p1, environment);
    let mut p2: Vec<&str> = Vec::new();
    p2.push("/usr/lib");
    p2.push("/usr/lib/x86_64-linux-gnu");
    p2.push("/usr/lib64");
    proof {
        assert(p2.deep_view() =~= seq![
            "/usr/lib"@,
            "/usr/lib/x86_64-linux-gnu"@,
            "/usr/lib64"@,
        ]);
    }
    patch_variable("LD_LIBRARY_PATH", p2, environment);
    let mut p3: Vec<&str> = Vec::new();
    p3.push("/usr/share/pyshared");
    proof {
        assert(p3.deep_view() =~= seq!["/usr/share/pyshared"@]);
    }
    patch_variable("PYTHONPATH", p3, environment);
    let mut p4: Vec<&str> = Vec::new();
    p4.push("/usr/share");
    proof {
        assert(p4.deep_view() =~= seq!["/usr/share"@]);
    }
    patch_variable("XDG_DATA_DIRS", p4, environment);
    let mut p5: Vec<&str> = Vec::new();
    p5.push("/usr/share/perl5");
    p5.push("/usr/lib/perl5");
    proof {
        assert(p5.deep_view() =~= seq!["/usr/share/perl5"@, "/usr/lib/perl5"@]);
    }
    patch_variable("PERLLIB", p5, environment);
    let mut p6: Vec<&str> = Vec::new();
    p6.push("/usr/share/glib-2.0/schemas/");
    proof {
        assert(p6.deep_view() =~= seq!["/usr/share/glib-2.0/schemas/"@]);
    }
    patch_variable("GSETTINGS_SCHEMA_DIR", p6, environment);
    let p7: Vec<&str> = Vec::new();
    proof {
        assert(p7.deep_view() =~= Seq::<Seq<char>>::empty());
    }
    patch_variable("QT_PLUGIN_PATH", p7, environment);
}

/// Forces the marker that keeps the bundled interpreter from writing
/// bytecode-cache artifacts into the archive.
pub fn disable_python_cache(environment: &mut Environment)
    requires
        old(environment).wf(),
    ensures
        final(environment).wf(),
        final(environment).env@ == old(environment).env@.insert(
            "PYTHONDONTWRITEBYTECODE"@,
            "1"@,
        ),
        final(environment).root_dir == old(environment).root_dir,
{
    environment.env.insert("PYTHONDONTWRITEBYTECODE".to_owned(), "1".to_owned());
}

/// Forces the marker by which the target program can detect that it runs
/// inside this launcher's managed environment.
pub fn identify_as_appimage(environment: &mut Environment)
    requires
        old(environment).wf(),
    ensures
        final(environment).wf(),
        final(environment).env@ == old(environment).env@.insert("APPIMAGE"@, "1"@),
        final(environment).root_dir == old(environment).root_dir,
{
    environment.env.insert("APPIMAGE".to_owned(), "1".to_owned());
}

/// The working map after both fixed markers are forced.
pub open spec fn marker_steps(m: Map<Seq<char>, Seq<char>>) -> Map<Seq<char>, Seq<char>> {
    m.insert("PYTHONDONTWRITEBYTECODE"@, "1"@).insert("APPIMAGE"@, "1"@)
}

/// The working map after the conditional certificate step: an inherited
/// certificate choice always wins; otherwise the bundled certificate file is
/// named when it is present under the root directory.
pub open spec fn ssl_step(
    m: Map<Seq<char>, Seq<char>>,
    root: Seq<char>,
    cacert_present: bool,
) -> Map<Seq<char>, Seq<char>> {
    if m.dom().contains("SSL_CERT_FILE"@) {
        m
    } else if cacert_present {
        m.insert("SSL_CERT_FILE"@, crate::paths::joined_path(root, "cacert.pem"@))
    } else {
        m
    }
}

/// Sets the certificate variable to the bundled certificate file when the
/// inherited environment has not already chosen one; `cacert_present` says
/// whether that file exists under the root directory.
pub fn specify_ssl_cert_file(environment: &mut Environment, cacert_present: bool)
    requires
        old(environment).wf(),
    ensures
        final(environment).wf(),
        final(environment).env@ == ssl_step(
            old(environment).env@,
            old(environment).root_dir@,
            cacert_present,
        ),
        final(environment).root_dir == old(environment).root_dir,
{
    if environment.env.contains_key("SSL_CERT_FILE") {
        return;
    }
    if cacert_present {
        let path = crate::paths::join_path(environment.root_dir.as_str(), "cacert.pem");
        environment.env.insert("SSL_CERT_FILE".to_owned(), path);
    }
}

/// The complete replacement environment derived from an inherited snapshot, a
/// root directory, and whether the bundled certificate file is present.
pub open spec fn built_env(
    snapshot: Seq<(Seq<char>, Seq<char>)>,
    root: Seq<char>,
    cacert_present: bool,
) -> Map<Seq<char>, Seq<char>> {
    ssl_step(marker_steps(rules_applied(copied_env(snapshot), root)), root, cacert_present)
}

/// How a serialization outcome relates to the built map: on success the lines
/// spell out exactly the bindings, on failure some binding holds a NUL.
pub open spec fn build_outcome_matches(
    m: Map<Seq<char>, Seq<char>>,
    r: Result<Vec<String>, crate::errors::EnvironmentEncodingError>,
) -> bool {
    match r {
        Ok(lines) => crate::string_map::lines_of(m, lines.deep_view())
            && crate::string_map::nul_free(m),
        Err(_) => !crate::string_map::nul_free(m),
    }
}

/// Builds the replacement environment block from the inherited snapshot:
/// shadow and bare copies, patched search paths, the two markers, and the
/// conditional certificate variable, serialized as `name=value` strings.
/// Whether the certificate file is present is probed on disk, so the exact
/// outcome is stated for some truth of that probe.
pub fn create_new_environment(snapshot: &Vec<(String, String)>, root_dir: String) -> (r: Result<
    Vec<String>,
    crate::errors::EnvironmentEncodingError,
>)
    ensures
        exists|cacert_present: bool|
            build_outcome_matches(
                built_env(snapshot.deep_view(), root_dir@, cacert_present),
                r,
            ),
{
    let mut environment = Environment { env: copy_environment(snapshot), root_dir };
    patch_variables(&mut environment);
    disable_python_cache(&mut environment);
    identify_as_appimage(&mut environment);
    let cert_candidate = crate::paths::join_path(environment.root_dir.as_str(), "cacert.pem");
    let cacert_present = crate::paths::path_exists(cert_candidate.as_str());
    specify_ssl_cert_file(&mut environment, cacert_present);
    let r = environment.env.to_lines();
    proof {
        assert(environment.env@ == built_env(snapshot.deep_view(), root_dir@, cacert_present));
        assert(build_outcome_matches(
            built_env(snapshot.deep_view(), root_dir@, cacert_present),
            r,
        ));
    }
    r
}

} // verus!
