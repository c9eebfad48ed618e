//! Names for the usage report: an action id shown as the application it
//! stands for, where that can be found.
use vstd::prelude::*;
use crate::applications::app_id;
use crate::text::{chars_of, concat_str, has_prefix, has_prefix_exec, string_of, string_of_range};
use crate::utils::generate_id;

verus! {

/// The id of the application called `app_name`.
pub fn generate_app_id(app_name: &str) -> (r: String)
    ensures
        r@ == app_id(app_name@),
{
    let r = generate_id("app", app_name);
    proof {
        reveal_strlit("app");
    }
    r
}

/// Well-known applications and the names the report gives them.
pub open spec fn known_apps() -> Seq<(Seq<char>, Seq<char>)> {
    seq![
        ("brave"@, "Brave Browser"@),
        ("firefox"@, "Firefox"@),
        ("chrome"@, "Google Chrome"@),
        ("chromium"@, "Chromium"@),
        ("code"@, "Visual Studio Code"@),
        ("kitty"@, "Kitty Terminal"@),
        ("alacritty"@, "Alacritty Terminal"@),
        ("nautilus"@, "Files (Nautilus)"@),
        ("thunar"@, "Thunar File Manager"@),
        ("spotify"@, "Spotify"@),
        ("discord"@, "Discord"@),
        ("slack"@, "Slack"@),
        ("gimp"@, "GIMP"@),
        ("libreoffice"@, "LibreOffice"@),
        ("vlc"@, "VLC Media Player"@),
    ]
}

/// The display name of the first known application whose id is `id`.
pub open spec fn known_name(apps: Seq<(Seq<char>, Seq<char>)>, id: Seq<char>) -> Option<Seq<char>>
    decreases apps.len(),
{
    if apps.len() == 0 {
        None
    } else if app_id(apps[0].0) == id {
        Some(apps[0].1)
    } else {
        known_name(apps.drop_first(), id)
    }
}

/// The name listed for `id`, the first one.
pub open spec fn listed_name(names: Seq<(Seq<char>, Seq<char>)>, id: Seq<char>) -> Option<Seq<char>>
    decreases names.len(),
{
    if names.len() == 0 {
        None
    } else if names[0].0 == id {
        Some(names[0].1)
    } else {
        listed_name(names.drop_first(), id)
    }
}

/// How the report shows an action id: the name listed for it; for an
/// application id, the name of a well-known application with that id, or
/// `App (` and the first eight characters of its hash `)`; any other id as
/// it is.
pub open spec fn resolved_name(id: Seq<char>, names: Seq<(Seq<char>, Seq<char>)>) -> Seq<char> {
    match listed_name(names, id) {
        Some(n) => n,
        None => if has_prefix(id, "app_"@) {
            match known_name(known_apps(), id) {
                Some(d) => d,
                None => {
                    let hash = id.subrange(4, id.len() as int);
                    "App ("@ + hash.subrange(0, if hash.len() < 8 { hash.len() as int } else { 8 })
                        + ")"@
                },
            }
        } else {
            id
        },
    }
}

pub open spec fn name_views(v: Seq<(String, String)>) -> Seq<(Seq<char>, Seq<char>)> {
    v.map_values(|p: (String, String)| (p.0@, p.1@))
}

fn known_app_list() -> (r: Vec<(&'static str, &'static str)>)
    ensures
        r@.map_values(|p: (&'static str, &'static str)| (p.0@, p.1@)) == known_apps(),
{
    let mut v: Vec<(&'static str, &'static str)> = Vec::new();
    v.push(("brave", "Brave Browser"));
    v.push(("firefox", "Firefox"));
    v.push(("chrome", "Google Chrome"));
    v.push(("chromium", "Chromium"));
    v.push(("code", "Visual Studio Code"));
    v.push(("kitty", "Kitty Terminal"));
    v.push(("alacritty", "Alacritty Terminal"));
    v.push(("nautilus", "Files (Nautilus)"));
    v.push(("thunar", "Thunar File Manager"));
    v.push(("spotify", "Spotify"));
    v.push(("discord", "Discord"));
    v.push(("slack", "Slack"));
    v.push(("gimp", "GIMP"));
    v.push(("libreoffice", "LibreOffice"));
    v.push(("vlc", "VLC Media Player"));
    assert(v@.map_values(|p: (&'static str, &'static str)| (p.0@, p.1@)) =~= known_apps());
    v
}

/// The report's name for `app_id`, given the names of the installed
/// applications by id (see `resolved_name`).
pub fn resolve_app_name(app_id: &str, app_names: &Vec<(String, String)>) -> (r: String)
    ensures
        r@ == resolved_name(app_id@, name_views(app_names@)),
{
    let ghost names = name_views(app_names@);
    let mut i: usize = 0;
    assert(names.subrange(0, names.len() as int) =~= names);
    while i < app_names.len()
        invariant
            i <= app_names@.len(),
            names == name_views(app_names@),
            listed_name(names, app_id@) == listed_name(names.subrange(i as int, names.len() as int), app_id@),
        decreases app_names@.len() - i,
    {
        let ghost rest = names.subrange(i as int, names.len() as int);
        assert(rest[0] == (app_names@[i as int].0@, app_names@[i as int].1@));
        if same_str(app_names[i].0.as_str(), app_id) {
            return app_names[i].1.clone();
        }
        assert(rest.drop_first() =~= names.subrange(i + 1, names.len() as int));
        i = i + 1;
    }
    assert(listed_name(names, app_id@) is None);
    let id = chars_of(app_id);
    proof {
        reveal_strlit("app_");
    }
    if !has_prefix_exec(&id, &chars_of("app_")) {
        return String::from_str(app_id);
    }
    let known = known_app_list();
    let ghost ks = known@.map_values(|p: (&'static str, &'static str)| (p.0@, p.1@));
    let mut k: usize = 0;
    assert(ks.subrange(0, ks.len() as int) =~= ks);
    while k < known.len()
        invariant
            k <= known@.len(),
            ks == known@.map_values(|p: (&'static str, &'static str)| (p.0@, p.1@)),
            ks == known_apps(),
            names == name_views(app_names@),
            listed_name(names, app_id@) is None,
            has_prefix(app_id@, "app_"@),
            known_name(ks, app_id@) == known_name(ks.subrange(k as int, ks.len() as int), app_id@),
        decreases known@.len() - k,
    {
        let ghost rest = ks.subrange(k as int, ks.len() as int);
        assert(rest[0] == (known@[k as int].0@, known@[k as int].1@));
        let candidate = generate_app_id(known[k].0);
        if same_str(candidate.as_str(), app_id) {
            return String::from_str(known[k].1);
        }
        assert(rest.drop_first() =~= ks.subrange(k + 1, ks.len() as int));
        k = k + 1;
    }
    let end: usize = if id.len() - 4 < 8 {
        id.len()
    } else {
        12
    };
    let hash = string_of_range(&id, 4, end);
    proof {
        reveal_strlit("App (");
        reveal_strlit(")");
        assert(id@.subrange(4, id@.len() as int).subrange(0, (end - 4) as int) =~= id@.subrange(
            4,
            end as int,
        ));
    }
    concat_str(concat_str("App (", hash.as_str()).as_str(), ")")
}

fn same_str(a: &str, b: &str) -> (r: bool)
    ensures
        r == (a@ == b@),
{
    crate::text::same_chars(&chars_of(a), &chars_of(b))
}

} // verus!
