use vstd::prelude::*;

use crate::environment::built_env;
use crate::environment::copied_env;
use crate::environment::copy_step;
use crate::environment::marker_steps;
use crate::environment::patch_step;
use crate::environment::rules_applied;
use crate::environment::shadow_key;
use crate::environment::shadow_prefix;
use crate::environment::ssl_step;
use crate::environment::suppressed;
use crate::paths::joined_path;

verus! {

/// `name` starts with the shadow prefix.
pub open spec fn has_shadow_prefix(name: Seq<char>) -> bool {
    name.len() >= shadow_prefix().len() && name.take(shadow_prefix().len() as int)
        == shadow_prefix()
}

/// No two snapshot pairs share a name.
pub open spec fn distinct_names(snapshot: Seq<(Seq<char>, Seq<char>)>) -> bool {
    forall|i: int, j: int| 0 <= i < j < snapshot.len() ==> snapshot[i].0 != snapshot[j].0
}

/// No snapshot name itself starts with the shadow prefix.
pub open spec fn no_shadowed_names(snapshot: Seq<(Seq<char>, Seq<char>)>) -> bool {
    forall|i: int| 0 <= i < snapshot.len() ==> !has_shadow_prefix(#[trigger] snapshot[i].0)
}

/// `k` is a target of the fixed patch rule table.
pub open spec fn rule_name(k: Seq<char>) -> bool {
    ||| k == "PATH"@
    ||| k == "LD_LIBRARY_PATH"@
    ||| k == "PYTHONPATH"@
    ||| k == "XDG_DATA_DIRS"@
    ||| k == "PERLLIB"@
    ||| k == "GSETTINGS_SCHEMA_DIR"@
    ||| k == "QT_PLUGIN_PATH"@
}

/// `k` is one of the two fixed marker variables.
pub open spec fn marker_name(k: Seq<char>) -> bool {
    k == "PYTHONDONTWRITEBYTECODE"@ || k == "APPIMAGE"@
}

proof fn lemma_fixed_names()
    ensures
        forall|k: Seq<char>| #[trigger]
            has_shadow_prefix(k) ==> !rule_name(k) && !marker_name(k) && k != "SSL_CERT_FILE"@
                && !suppressed(k),
        forall|k: Seq<char>| #[trigger]
            suppressed(k) ==> !rule_name(k) && !marker_name(k) && k != "SSL_CERT_FILE"@
                && !has_shadow_prefix(k),
        !rule_name("SSL_CERT_FILE"@),
        !marker_name("SSL_CERT_FILE"@),
        !suppressed("SSL_CERT_FILE"@),
        !has_shadow_prefix("SSL_CERT_FILE"@),
        "APPIMAGE"@ != "PYTHONDONTWRITEBYTECODE"@,
        "SSL_CERT_FILE"@ != "PYTHONDONTWRITEBYTECODE"@,
        "SSL_CERT_FILE"@ != "APPIMAGE"@,
{
    reveal_strlit("OS_ENV_");
    reveal_strlit("PATH");
    reveal_strlit("LD_LIBRARY_PATH");
    reveal_strlit("PYTHONPATH");
    reveal_strlit("XDG_DATA_DIRS");
    reveal_strlit("PERLLIB");
    reveal_strlit("GSETTINGS_SCHEMA_DIR");
    reveal_strlit("QT_PLUGIN_PATH");
    reveal_strlit("PYTHONDONTWRITEBYTECODE");
    reveal_strlit("APPIMAGE");
    reveal_strlit("SSL_CERT_FILE");
    reveal_strlit("GEM_PATH");
    reveal_strlit("GEM_HOME");
    reveal_strlit("GEM_ROOT");
    assert("PATH"@.len() == 4);
    assert("LD_LIBRARY_PATH"@.len() == 15);
    assert("PYTHONPATH"@.len() == 10);
    assert("XDG_DATA_DIRS"@.len() == 13);
    assert("PERLLIB"@.len() == 7);
    assert("GSETTINGS_SCHEMA_DIR"@.len() == 20);
    assert("QT_PLUGIN_PATH"@.len() == 14);
    assert("PYTHONDONTWRITEBYTECODE"@.len() == 23);
    assert("APPIMAGE"@.len() == 8);
    assert("SSL_CERT_FILE"@.len() == 13);
    assert("GEM_PATH"@.len() == 8);
    assert("GEM_HOME"@.len() == 8);
    assert("GEM_ROOT"@.len() == 8);
    assert("OS_ENV_"@.len() == 7);
    assert("SSL_CERT_FILE"@[0] == 'S');
    assert("XDG_DATA_DIRS"@[0] == 'X');
    assert("APPIMAGE"@[0] == 'A');
    assert("GEM_PATH"@[0] == 'G');
    assert("GEM_HOME"@[0] == 'G');
    assert("GEM_ROOT"@[0] == 'G');
    assert("OS_ENV_"@[0] == 'O');
    assert("PATH"@[0] == 'P');
    assert("LD_LIBRARY_PATH"@[0] == 'L');
    assert("PYTHONPATH"@[0] == 'P');
    assert("PERLLIB"@[0] == 'P');
    assert("GSETTINGS_SCHEMA_DIR"@[0] == 'G');
    assert("QT_PLUGIN_PATH"@[0] == 'Q');
    assert("PYTHONDONTWRITEBYTECODE"@[0] == 'P');
    assert forall|k: Seq<char>| #[trigger] has_shadow_prefix(k) implies !rule_name(k)
        && !marker_name(k) && k != "SSL_CERT_FILE"@ && !suppressed(k) by {
        assert(k.take(shadow_prefix().len() as int)[0] == k[0]);
        assert(k[0] == 'O');
    }
    assert forall|k: Seq<char>| #[trigger] suppressed(k) implies !rule_name(k) && !marker_name(k)
        && k != "SSL_CERT_FILE"@ && !has_shadow_prefix(k) by {
        assert(k.len() == 8 && k[0] == 'G');
        if has_shadow_prefix(k) {
            assert(k.take(shadow_prefix().len() as int)[0] == k[0]);
            assert(false);
        }
    }
}

proof fn lemma_shadow_key_prefixed(name: Seq<char>)
    ensures
        has_shadow_prefix(shadow_key(name)),
{
    assert(shadow_key(name).take(shadow_prefix().len() as int) =~= shadow_prefix());
}

proof fn lemma_shadow_key_injective(a: Seq<char>, b: Seq<char>)
    requires
        shadow_key(a) == shadow_key(b),
    ensures
        a == b,
{
    assert(shadow_key(a).skip(shadow_prefix().len() as int) =~= a);
    assert(shadow_key(b).skip(shadow_prefix().len() as int) =~= b);
}

proof fn lemma_copied_shadow(s: Seq<(Seq<char>, Seq<char>)>, i: int)
    requires
        distinct_names(s),
        no_shadowed_names(s),
        0 <= i < s.len(),
    ensures
        copied_env(s).dom().contains(shadow_key(s[i].0)),
        copied_env(s)[shadow_key(s[i].0)] == s[i].1,
    decreases s.len(),
{
    let prev = s.drop_last();
    assert(distinct_names(prev) && no_shadowed_names(prev)) by {
        assert(forall|a: int| 0 <= a < prev.len() ==> prev[a] == s[a]);
    }
    if i == s.len() - 1 {
        lemma_shadow_key_prefixed(s[i].0);
        if s[i].0 == shadow_key(s[i].0) {
            assert(has_shadow_prefix(s[i].0));
            assert(false);
        }
    } else {
        lemma_copied_shadow(prev, i);
        assert(prev[i] == s[i]);
        lemma_shadow_key_prefixed(s[i].0);
        if shadow_key(s.last().0) == shadow_key(s[i].0) {
            lemma_shadow_key_injective(s.last().0, s[i].0);
            assert(s[s.len() - 1].0 == s[i].0);
            assert(false);
        }
        if s.last().0 == shadow_key(s[i].0) {
            assert(has_shadow_prefix(s[s.len() - 1].0));
            assert(false);
        }
    }
}

proof fn lemma_copied_plain(s: Seq<(Seq<char>, Seq<char>)>, i: int)
    requires
        distinct_names(s),
        no_shadowed_names(s),
        0 <= i < s.len(),
        !suppressed(s[i].0),
    ensures
        copied_env(s).dom().contains(s[i].0),
        copied_env(s)[s[i].0] == s[i].1,
    decreases s.len(),
{
    let prev = s.drop_last();
    assert(distinct_names(prev) && no_shadowed_names(prev)) by {
        assert(forall|a: int| 0 <= a < prev.len() ==> prev[a] == s[a]);
    }
    if i == s.len() - 1 {
        lemma_shadow_key_prefixed(s[i].0);
        if s[i].0 == shadow_key(s[i].0) {
            assert(has_shadow_prefix(s[i].0));
            assert(false);
        }
    } else {
        lemma_copied_plain(prev, i);
        assert(prev[i] == s[i]);
        lemma_shadow_key_prefixed(s.last().0);
        if s[i].0 == shadow_key(s.last().0) {
            assert(has_shadow_prefix(s[i].0));
            assert(false);
        }
        if s.last().0 == s[i].0 {
            assert(s[s.len() - 1].0 == s[i].0);
            assert(false);
        }
    }
}

proof fn lemma_copied_dom(s: Seq<(Seq<char>, Seq<char>)>, k: Seq<char>)
    ensures
        copied_env(s).dom().contains(k) ==> exists|i: int|
            0 <= i < s.len() && ((k == #[trigger] s[i].0 && !suppressed(k)) || k == shadow_key(
                s[i].0,
            )),
    decreases s.len(),
{
    if s.len() > 0 {
        let prev = s.drop_last();
        lemma_copied_dom(prev, k);
        if copied_env(s).dom().contains(k) {
            if k == shadow_key(s.last().0) {
                assert(k == shadow_key(s[s.len() - 1].0));
            } else if !suppressed(s.last().0) && k == s.last().0 {
                assert(k == s[s.len() - 1].0 && !suppressed(k));
            } else {
                assert(copied_env(prev).dom().contains(k));
                let i = choose|i: int|
                    0 <= i < prev.len() && ((k == #[trigger] prev[i].0 && !suppressed(k)) || k
                        == shadow_key(prev[i].0));
                assert(prev[i] == s[i]);
            }
        }
    }
}

proof fn lemma_rules_preserve(m: Map<Seq<char>, Seq<char>>, root: Seq<char>, k: Seq<char>)
    requires
        !rule_name(k),
    ensures
        rules_applied(m, root).dom().contains(k) == m.dom().contains(k),
        m.dom().contains(k) ==> rules_applied(m, root)[k] == m[k],
{
}

proof fn lemma_steps_preserve(
    m: Map<Seq<char>, Seq<char>>,
    root: Seq<char>,
    cacert_present: bool,
    k: Seq<char>,
)
    requires
        !rule_name(k),
        !marker_name(k),
        k != "SSL_CERT_FILE"@,
    ensures
        ssl_step(marker_steps(rules_applied(m, root)), root, cacert_present).dom().contains(k)
            == m.dom().contains(k),
        m.dom().contains(k) ==> ssl_step(marker_steps(rules_applied(m, root)), root,
            cacert_present,
        )[k] == m[k],
{
    lemma_rules_preserve(m, root, k);
}

/// Law: every inherited variable's value is preserved in the final
/// environment under its prefixed shadow name (the shadow map binds each such
/// name exactly once).
pub proof fn lemma_shadow_copies(
    snapshot: Seq<(Seq<char>, Seq<char>)>,
    root: Seq<char>,
    cacert_present: bool,
    i: int,
)
    requires
        distinct_names(snapshot),
        no_shadowed_names(snapshot),
        0 <= i < snapshot.len(),
    ensures
        built_env(snapshot, root, cacert_present).dom().contains(shadow_key(snapshot[i].0)),
        built_env(snapshot, root, cacert_present)[shadow_key(snapshot[i].0)] == snapshot[i].1,
{
    lemma_copied_shadow(snapshot, i);
    lemma_shadow_key_prefixed(snapshot[i].0);
    lemma_fixed_names();
    lemma_steps_preserve(copied_env(snapshot), root, cacert_present, shadow_key(snapshot[i].0));
}

/// Law: a non-suppressed inherited variable outside the patch rule table and
/// the markers also keeps its bare binding with its inherited value.
pub proof fn lemma_plain_copies(
    snapshot: Seq<(Seq<char>, Seq<char>)>,
    root: Seq<char>,
    cacert_present: bool,
    i: int,
)
    requires
        distinct_names(snapshot),
        no_shadowed_names(snapshot),
        0 <= i < snapshot.len(),
        !suppressed(snapshot[i].0),
        !rule_name(snapshot[i].0),
        !marker_name(snapshot[i].0),
    ensures
        built_env(snapshot, root, cacert_present).dom().contains(snapshot[i].0),
        built_env(snapshot, root, cacert_present)[snapshot[i].0] == snapshot[i].1,
{
    lemma_copied_plain(snapshot, i);
    let k = snapshot[i].0;
    if k == "SSL_CERT_FILE"@ {
        lemma_rules_preserve(copied_env(snapshot), root, k);
        lemma_fixed_names();
    } else {
        lemma_steps_preserve(copied_env(snapshot), root, cacert_present, k);
    }
}

/// Law: a suppressed name is never bound bare in the final environment.
pub proof fn lemma_suppressed_absent(
    snapshot: Seq<(Seq<char>, Seq<char>)>,
    root: Seq<char>,
    cacert_present: bool,
    name: Seq<char>,
)
    requires
        suppressed(name),
    ensures
        !built_env(snapshot, root, cacert_present).dom().contains(name),
{
    lemma_fixed_names();
    lemma_copied_dom(snapshot, name);
    if copied_env(snapshot).dom().contains(name) {
        let i = choose|i: int|
            0 <= i < snapshot.len() && ((name == #[trigger] snapshot[i].0 && !suppressed(name))
                || name == shadow_key(snapshot[i].0));
        if name == shadow_key(snapshot[i].0) {
            lemma_shadow_key_prefixed(snapshot[i].0);
            assert(has_shadow_prefix(name));
            assert(false);
        } else {
            assert(false);
        }
    }
    lemma_steps_preserve(copied_env(snapshot), root, cacert_present, name);
}

/// Law: both fixed markers end bound to their literal value, whatever the
/// inherited environment held for those names.
pub proof fn lemma_markers_forced(
    snapshot: Seq<(Seq<char>, Seq<char>)>,
    root: Seq<char>,
    cacert_present: bool,
)
    ensures
        built_env(snapshot, root, cacert_present).dom().contains("PYTHONDONTWRITEBYTECODE"@),
        built_env(snapshot, root, cacert_present)["PYTHONDONTWRITEBYTECODE"@] == "1"@,
        built_env(snapshot, root, cacert_present).dom().contains("APPIMAGE"@),
        built_env(snapshot, root, cacert_present)["APPIMAGE"@] == "1"@,
{
    lemma_fixed_names();
}

/// Law: with no inherited certificate choice and the bundled certificate file
/// present, the certificate variable names that file under the root.
pub proof fn lemma_cert_set_when_absent(
    snapshot: Seq<(Seq<char>, Seq<char>)>,
    root: Seq<char>,
    cacert_present: bool,
)
    requires
        cacert_present,
        forall|i: int| 0 <= i < snapshot.len() ==> #[trigger] snapshot[i].0 != "SSL_CERT_FILE"@,
    ensures
        built_env(snapshot, root, cacert_present).dom().contains("SSL_CERT_FILE"@),
        built_env(snapshot, root, cacert_present)["SSL_CERT_FILE"@] == joined_path(
            root,
            "cacert.pem"@,
        ),
{
    lemma_fixed_names();
    lemma_copied_dom(snapshot, "SSL_CERT_FILE"@);
    if copied_env(snapshot).dom().contains("SSL_CERT_FILE"@) {
        let i = choose|i: int|
            0 <= i < snapshot.len() && (("SSL_CERT_FILE"@ == #[trigger] snapshot[i].0
                && !suppressed("SSL_CERT_FILE"@)) || "SSL_CERT_FILE"@ == shadow_key(
                snapshot[i].0,
            ));
        if "SSL_CERT_FILE"@ == shadow_key(snapshot[i].0) {
            lemma_shadow_key_prefixed(snapshot[i].0);
            assert(false);
        } else {
            assert(false);
        }
    }
    lemma_rules_preserve(copied_env(snapshot), root, "SSL_CERT_FILE"@);
}

/// Law: an inherited certificate choice is kept with its inherited value,
/// whether or not the bundled certificate file exists.
pub proof fn lemma_cert_respects_inherited(
    snapshot: Seq<(Seq<char>, Seq<char>)>,
    root: Seq<char>,
    cacert_present: bool,
    i: int,
)
    requires
        distinct_names(snapshot),
        no_shadowed_names(snapshot),
        0 <= i < snapshot.len(),
        snapshot[i].0 == "SSL_CERT_FILE"@,
    ensures
        built_env(snapshot, root, cacert_present).dom().contains("SSL_CERT_FILE"@),
        built_env(snapshot, root, cacert_present)["SSL_CERT_FILE"@] == snapshot[i].1,
{
    lemma_fixed_names();
    lemma_plain_copies(snapshot, root, cacert_present, i);
}

} // verus!
