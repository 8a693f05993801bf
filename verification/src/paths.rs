use vstd::prelude::*;

verus! {

/// The name of the directory that this program keeps under the XDG base
/// directories.
pub open spec fn app_dir_name() -> Seq<char> {
    "gmail-sender"@
}

/// Joining a path component onto a base path, as Unix paths are joined:
/// an absolute component replaces the base; otherwise a separator is put
/// between the two unless the base is empty or already ends in one.
pub open spec fn path_join(base: Seq<char>, part: Seq<char>) -> Seq<char> {
    if part.len() > 0 && part[0] == '/' {
        part
    } else if base.len() == 0 || base.last() == '/' {
        base + part
    } else {
        base + seq!['/'] + part
    }
}

/// Unix path joining: an absolute part replaces the base; a relative part
/// follows the base, with one `/` between them unless the base is empty or
/// already ends in `/`.
pub proof fn lemma_path_join_shape(base: Seq<char>, part: Seq<char>)
    ensures
        part.len() > 0 && part[0] == '/' ==> path_join(base, part) == part,
        is_relative(part) && (base.len() == 0 || base[base.len() - 1] == '/') ==> path_join(
            base,
            part,
        ) == base + part,
        is_relative(part) && base.len() > 0 && base[base.len() - 1] != '/' ==> path_join(
            base,
            part,
        ) == base + seq!['/'] + part,
{
}

/// Joins `part` onto `base` as a Unix path.
pub fn join_path(base: &str, part: &str) -> (joined: String)
    ensures
        joined@ == path_join(base@, part@),
{
    let part_len = part.unicode_len();
    if part_len > 0 && part.get_char(0) == '/' {
        return part.to_owned();
    }
    let base_len = base.unicode_len();
    let mut joined = base.to_owned();
    if base_len > 0 && base.get_char(base_len - 1) != '/' {
        joined.append("/");
        proof {
            reveal_strlit("/");
        }
    }
    joined.append(part);
    proof {
        reveal_strlit("/");
    }
    joined
}

/// The view of an optional string.
pub open spec fn opt_view(s: Option<&str>) -> Option<Seq<char>> {
    match s {
        Some(v) => Some(v@),
        None => None,
    }
}

/// The directory that an XDG base-directory variable names, or, when the
/// variable is unset, the given default under the home directory; then
/// this program's own directory within it.
pub open spec fn xdg_app_dir(
    xdg_value: Option<Seq<char>>,
    home: Option<Seq<char>>,
    default_under_home: Seq<char>,
) -> Seq<char> {
    let base = match xdg_value {
        Some(v) => v,
        None => path_join(home.unwrap(), default_under_home),
    };
    path_join(base, app_dir_name())
}

/// The configuration directory: `$XDG_CONFIG_HOME/gmail-sender`, or
/// `~/.config/gmail-sender` where the variable is unset.
pub open spec fn config_dir_of(xdg_config_home: Option<Seq<char>>, home: Option<Seq<char>>) -> Seq<
    char,
> {
    xdg_app_dir(xdg_config_home, home, ".config"@)
}

/// The data directory: `$XDG_DATA_HOME/gmail-sender`, or
/// `~/.local/share/gmail-sender` where the variable is unset.
pub open spec fn data_dir_of(xdg_data_home: Option<Seq<char>>, home: Option<Seq<char>>) -> Seq<
    char,
> {
    xdg_app_dir(xdg_data_home, home, ".local/share"@)
}

fn app_dir(xdg_value: Option<&str>, home_dir: Option<&str>, default_under_home: &str) -> (dir:
    String)
    requires
        xdg_value.is_some() || home_dir.is_some(),
    ensures
        dir@ == xdg_app_dir(opt_view(xdg_value), opt_view(home_dir), default_under_home@),
{
    let base = match xdg_value {
        Some(v) => v.to_owned(),
        None => {
            let home = home_dir.unwrap();
            join_path(home, default_under_home)
        },
    };
    join_path(base.as_str(), "gmail-sender")
}

/// The configuration directory of this program, from the value of
/// `XDG_CONFIG_HOME` (`None` where it is unset or not Unicode) and the
/// user's home directory. The home directory is needed only where the
/// variable is unset.
pub fn get_config_dir(xdg_config_home: Option<&str>, home_dir: Option<&str>) -> (dir: String)
    requires
        xdg_config_home.is_some() || home_dir.is_some(),
    ensures
        dir@ == config_dir_of(opt_view(xdg_config_home), opt_view(home_dir)),
        xdg_config_home is Some ==> dir@ == path_join(xdg_config_home.unwrap()@, "gmail-sender"@),
        xdg_config_home is None ==> dir@ == path_join(
            path_join(home_dir.unwrap()@, ".config"@),
            "gmail-sender"@,
        ),
{
    app_dir(xdg_config_home, home_dir, ".config")
}

/// The data directory of this program, from the value of `XDG_DATA_HOME`
/// (`None` where it is unset or not Unicode) and the user's home
/// directory. The home directory is needed only where the variable is unset.
pub fn get_data_dir(xdg_data_home: Option<&str>, home_dir: Option<&str>) -> (dir: String)
    requires
        xdg_data_home.is_some() || home_dir.is_some(),
    ensures
        dir@ == data_dir_of(opt_view(xdg_data_home), opt_view(home_dir)),
        xdg_data_home is Some ==> dir@ == path_join(xdg_data_home.unwrap()@, "gmail-sender"@),
        xdg_data_home is None ==> dir@ == path_join(
            path_join(home_dir.unwrap()@, ".local/share"@),
            "gmail-sender"@,
        ),
{
    app_dir(xdg_data_home, home_dir, ".local/share")
}

/// A name with its leading `/` characters taken off.
pub open spec fn strip_leading_slashes(name: Seq<char>) -> Seq<char>
    decreases name.len(),
{
    if name.len() > 0 && name[0] == '/' {
        strip_leading_slashes(name.drop_first())
    } else {
        name
    }
}

/// A name that Unix reads as relative: it does not start with `/`.
pub open spec fn is_relative(name: Seq<char>) -> bool {
    name.len() == 0 || name[0] != '/'
}

/// A file named inside a directory: the name is joined as a relative
/// component (leading `/` characters dropped), so it stays inside.
pub open spec fn path_within(dir: Seq<char>, name: Seq<char>) -> Seq<char> {
    path_join(dir, strip_leading_slashes(name))
}

/// `prefix` begins `s`.
pub open spec fn starts_with(s: Seq<char>, prefix: Seq<char>) -> bool {
    prefix.len() <= s.len() && s.subrange(0, prefix.len() as int) == prefix
}

proof fn lemma_strip_leading_slashes(name: Seq<char>)
    ensures
        is_relative(strip_leading_slashes(name)),
        is_relative(name) ==> strip_leading_slashes(name) == name,
    decreases name.len(),
{
    if name.len() > 0 && name[0] == '/' {
        lemma_strip_leading_slashes(name.drop_first());
    }
}

/// A path inside a directory begins with the directory, and a relative
/// name is joined as it is.
pub proof fn lemma_path_within(dir: Seq<char>, name: Seq<char>)
    ensures
        starts_with(path_within(dir, name), dir),
        is_relative(name) ==> path_within(dir, name) == path_join(dir, name),
{
    lemma_strip_leading_slashes(name);
    let r = path_within(dir, name);
    assert(r.subrange(0, dir.len() as int) =~= dir);
}

/// Joins `name` onto `dir` as a relative component, so that the result
/// lies inside `dir`: leading `/` characters of `name` are dropped.
pub fn join_within(dir: &str, name: &str) -> (joined: String)
    ensures
        joined@ == path_within(dir@, name@),
        starts_with(joined@, dir@),
        is_relative(name@) ==> joined@ == path_join(dir@, name@),
{
    let n = name.unicode_len();
    let mut i: usize = 0;
    assert(name@.skip(0) =~= name@);
    while i < n && name.get_char(i) == '/'
        invariant
            n == name@.len(),
            i <= n,
            strip_leading_slashes(name@.skip(i as int)) == strip_leading_slashes(name@),
        decreases n - i,
    {
        assert(name@.skip(i as int).drop_first() =~= name@.skip(i + 1));
        i = i + 1;
    }
    let rest = name.substring_char(i, n);
    assert(rest@ =~= name@.skip(i as int));
    proof {
        lemma_path_within(dir@, name@);
    }
    join_path(dir, rest)
}

/// A file within the configuration directory. The name is joined as a
/// relative component, so the path stays inside the directory.
pub fn get_config_path(xdg_config_home: Option<&str>, home_dir: Option<&str>, filename: &str) -> (path: String)
    requires
        xdg_config_home.is_some() || home_dir.is_some(),
    ensures
        path@ == path_within(config_dir_of(opt_view(xdg_config_home), opt_view(home_dir)), filename@),
        starts_with(path@, config_dir_of(opt_view(xdg_config_home), opt_view(home_dir))),
        is_relative(filename@) ==> path@ == path_join(
            config_dir_of(opt_view(xdg_config_home), opt_view(home_dir)),
            filename@,
        ),
{
    let dir = get_config_dir(xdg_config_home, home_dir);
    join_within(dir.as_str(), filename)
}

/// A file within the data directory. The name is joined as a relative
/// component, so the path stays inside the directory.
pub fn get_data_path(xdg_data_home: Option<&str>, home_dir: Option<&str>, filename: &str) -> (path: String)
    requires
        xdg_data_home.is_some() || home_dir.is_some(),
    ensures
        path@ == path_within(data_dir_of(opt_view(xdg_data_home), opt_view(home_dir)), filename@),
        starts_with(path@, data_dir_of(opt_view(xdg_data_home), opt_view(home_dir))),
        is_relative(filename@) ==> path@ == path_join(
            data_dir_of(opt_view(xdg_data_home), opt_view(home_dir)),
            filename@,
        ),
{
    let dir = get_data_dir(xdg_data_home, home_dir);
    join_within(dir.as_str(), filename)
}

/// Where `config install` puts the executable.
#[derive(Debug)]
pub struct InstallTarget {
    /// The directory that receives it.
    pub dir: String,
    /// The path of the installed executable.
    pub path: String,
    /// Whether it is linked there (else copied).
    pub symlink: bool,
}

/// Why no install target could be worked out.
#[derive(Debug, PartialEq, Eq, Structural)]
pub enum InstallError {
    /// A link goes under the home directory, and `HOME` is unset.
    HomeNotSet,
}

/// The directory that a link to the executable goes into.
pub open spec fn link_dir_of(home: Seq<char>) -> Seq<char> {
    path_join(home, ".local/bin"@)
}

/// The directory that a copy of the executable goes into.
pub open spec fn copy_dir() -> Seq<char> {
    "/usr/local/bin"@
}

/// Works out where `config install` puts the executable named `exe_name`:
/// with `use_link`, a link in `~/.local/bin` (which needs the home
/// directory, from `HOME`); else a copy in `/usr/local/bin`.
pub fn install_target(use_link: bool, home: Option<&str>, exe_name: &str) -> (result: Result<
    InstallTarget,
    InstallError,
>)
    ensures
        use_link && home is None <==> result is Err,
        result matches Ok(t) ==> {
            &&& t.symlink == use_link
            &&& t.dir@ == (if use_link {
                link_dir_of(home.unwrap()@)
            } else {
                copy_dir()
            })
            &&& t.path@ == path_join(t.dir@, exe_name@)
            &&& use_link ==> t.dir@ == path_join(home.unwrap()@, ".local/bin"@)
            &&& !use_link ==> t.dir@ == "/usr/local/bin"@
        },
{
    let dir = if use_link {
        match home {
            Some(h) => join_path(h, ".local/bin"),
            None => return Err(InstallError::HomeNotSet),
        }
    } else {
        String::from_str("/usr/local/bin")
    };
    let path = join_path(dir.as_str(), exe_name);
    Ok(InstallTarget { dir, path, symlink: use_link })
}

} // verus!
