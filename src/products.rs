use vstd::prelude::*;

use vstd::string::{StrSliceExecFns, StringExecFns};

verus! {

/// Whether `needle` occurs in `hay` as a run of consecutive characters.
pub open spec fn contains(hay: Seq<char>, needle: Seq<char>) -> bool {
    exists|i: int|
        0 <= i <= hay.len() - needle.len() && #[trigger] hay.subrange(i, i + needle.len())
            == needle
}

/// Relies on str::contains: true exactly when the pattern matches a part of
/// the string.
#[verifier::external_body]
fn str_contains(hay: &str, needle: &str) -> (r: bool)
    ensures
        r == contains(hay@, needle@),
{
    hay.contains(needle)
}

/// The executables, by base name, that each supported product installs; `None`
/// for a product that is not supported.
pub open spec fn exe_names_for(name: Seq<char>) -> Option<Seq<Seq<char>>> {
    if contains(name, "ZennoPoster"@) && contains(name, "V7"@) {
        Some(seq!["ProjectMaker"@, "ZennoPoster"@])
    } else if contains(name, "ZennoProjectMaker"@) {
        Some(seq!["ProjectMaker"@, "ProjectMakerZD"@])
    } else if contains(name, "ZennoDroid"@) {
        Some(seq!["ProjectMakerZD"@, "ZennoDroid"@])
    } else if contains(name, "ZennoBox"@) && contains(name, "V7"@) {
        Some(seq!["ZennoBox"@])
    } else if contains(name, "ProxyChecker"@) {
        Some(seq!["ProxyChecker"@])
    } else if contains(name, "CapMonster"@) {
        Some(seq!["CapMonster"@, "CapMonsterMCS"@, "LicenseHelper"@])
    } else {
        None
    }
}

/// The views of a list of names.
pub open spec fn names_view(v: Seq<&'static str>) -> Seq<Seq<char>> {
    v.map_values(|s: &'static str| s@)
}

/// `name ver lang`, as a product is shown.
pub open spec fn product_title(name: Seq<char>, ver: Seq<char>, lang: Seq<char>) -> Seq<char> {
    name + " "@ + ver + " "@ + lang
}

/// The message for a product that is not supported.
pub open spec fn unsupported_message(name: Seq<char>, ver: Seq<char>, lang: Seq<char>) -> Seq<
    char,
> {
    "Unsupported product: '"@ + product_title(name, ver, lang) + "'"@
}

fn title(name: &str, ver: &str, lang: &str) -> (r: String)
    ensures
        r@ == product_title(name@, ver@, lang@),
{
    let mut r = String::from_str(name);
    r.append(" ");
    r.append(ver);
    r.append(" ");
    r.append(lang);
    r
}

/// The base names of the executables that the product `name` installs, or a
/// message naming the product where it is not supported.
pub fn get_exe_names(name: &str, ver: &str, lang: &str) -> (r: Result<Vec<&'static str>, String>)
    ensures
        match exe_names_for(name@) {
            Some(names) => r is Ok && names_view(r->Ok_0@) == names,
            None => r is Err && r->Err_0@ == unsupported_message(name@, ver@, lang@),
        },
{
    let mut v: Vec<&'static str> = Vec::new();
    if str_contains(name, "ZennoPoster") && str_contains(name, "V7") {
        v.push("ProjectMaker");
        v.push("ZennoPoster");
    } else if str_contains(name, "ZennoProjectMaker") {
        v.push("ProjectMaker");
        v.push("ProjectMakerZD");
    } else if str_contains(name, "ZennoDroid") {
        v.push("ProjectMakerZD");
        v.push("ZennoDroid");
    } else if str_contains(name, "ZennoBox") && str_contains(name, "V7") {
        v.push("ZennoBox");
    } else if str_contains(name, "ProxyChecker") {
        v.push("ProxyChecker");
    } else if str_contains(name, "CapMonster") {
        v.push("CapMonster");
        v.push("CapMonsterMCS");
        v.push("LicenseHelper");
    } else {
        let mut msg = String::from_str("Unsupported product: '");
        msg.append(title(name, ver, lang).as_str());
        msg.append("'");
        return Err(msg);
    }
    assert(names_view(v@) =~= exe_names_for(name@)->Some_0);
    Ok(v)
}

/// An installed product: what the registry says of it, and the executables
/// whose configuration files it has.
#[derive(Debug)]
pub struct Product {
    pub name: String,
    pub ver: String,
    pub lang: String,
    pub install_path: String,
    pub exe_names: Vec<&'static str>,
}

impl Product {
    /// A product with the executables of its kind, or the message of
    /// `get_exe_names` where the kind is not supported.
    pub fn new(name: String, ver: String, lang: String, install_path: String) -> (r: Result<
        Product,
        String,
    >)
        ensures
            match exe_names_for(name@) {
                Some(names) => r is Ok && r->Ok_0.name@ == name@ && r->Ok_0.ver@ == ver@
                    && r->Ok_0.lang@ == lang@ && r->Ok_0.install_path@ == install_path@
                    && names_view(r->Ok_0.exe_names@) == names,
                None => r is Err && r->Err_0@ == unsupported_message(name@, ver@, lang@),
            },
    {
        let exe_names = get_exe_names(name.as_str(), ver.as_str(), lang.as_str())?;
        Ok(Product { name, ver, lang, install_path, exe_names })
    }

    /// `name ver lang`, as the product is shown.
    pub fn title(&self) -> (r: String)
        ensures
            r@ == product_title(self.name@, self.ver@, self.lang@),
    {
        title(self.name.as_str(), self.ver.as_str(), self.lang.as_str())
    }
}

/// Whether a path ends with a separator.
pub open spec fn ends_with_separator(path: Seq<char>) -> bool {
    path.len() > 0 && (path.last() == '\\' || path.last() == '/')
}

/// `path` followed by `part`, with one separator between them.
pub open spec fn joined(path: Seq<char>, part: Seq<char>) -> Seq<char> {
    if ends_with_separator(path) {
        path + part
    } else {
        path + seq!['\\'] + part
    }
}

fn join(path: &str, part: &str) -> (r: String)
    ensures
        r@ == joined(path@, part@),
{
    let mut r = String::from_str(path);
    let n = path.unicode_len();
    if n == 0 {
        r.append("\\");
    } else {
        let last = path.get_char(n - 1);
        if last != '\\' && last != '/' {
            r.append("\\");
        }
    }
    r.append(part);
    proof {
        reveal_strlit("\\");
    }
    r
}

/// Where the configuration file `cfg_fullname` of a product installed at
/// `path` lies: `<path>\Progs\<cfg_fullname>`.
pub fn get_exe_config_path(path: &str, cfg_fullname: &str) -> (r: String)
    ensures
        r@ == joined(joined(path@, "Progs"@), cfg_fullname@),
{
    let dir = join(path, "Progs");
    join(dir.as_str(), cfg_fullname)
}

/// The name of the configuration file of the executable `exe_name`.
pub fn config_file_name(exe_name: &str) -> (r: String)
    ensures
        r@ == exe_name@ + ".exe.config"@,
{
    let mut r = String::from_str(exe_name);
    r.append(".exe.config");
    r
}

/// The name under which the configuration file `orig_name` of `product` is
/// backed up: `<orig_name>.<name> <ver> <lang>.bak`.
pub fn backup_file_name(orig_name: &str, product: &Product) -> (r: String)
    ensures
        r@ == orig_name@ + "."@ + product_title(product.name@, product.ver@, product.lang@)
            + ".bak"@,
{
    let mut r = String::from_str(orig_name);
    r.append(".");
    r.append(product.title().as_str());
    r.append(".bak");
    r
}

/// The upper-case form of a string, as `str::to_uppercase` gives it.
pub uninterp spec fn uppercase_of(s: Seq<char>) -> Seq<char>;

/// Relies on str::to_uppercase: the result depends on the characters alone.
#[verifier::external_body]
fn to_uppercase(s: &str) -> (r: String)
    ensures
        r@ == uppercase_of(s@),
{
    s.to_uppercase()
}

fn same_chars(a: &str, b: &str) -> (r: bool)
    ensures
        r == (a@ == b@),
{
    let n = a.unicode_len();
    if n != b.unicode_len() {
        return false;
    }
    let mut i: usize = 0;
    while i < n
        invariant
            n == a@.len() == b@.len(),
            i <= n,
            forall|j: int| 0 <= j < i ==> a@[j] == b@[j],
        decreases n - i,
    {
        if a.get_char(i) != b.get_char(i) {
            return false;
        }
        i = i + 1;
    }
    assert(a@ =~= b@);
    true
}

/// Whether a registry key names a language: two bytes long and already in
/// upper case.
pub open spec fn is_language(key: &str) -> bool {
    key.len() == 2 && uppercase_of(key@) == key@
}

/// Whether a registry key under the vendor's root names a language (`EN`,
/// `RU`), under which the products of that language are listed.
pub fn is_language_key(key: &str) -> (r: bool)
    ensures
        r == is_language(key),
{
    if key.len() != 2 {
        return false;
    }
    let upper = to_uppercase(key);
    same_chars(upper.as_str(), key)
}

} // verus!
