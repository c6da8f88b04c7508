//! D-Bus policy files: one bus-configuration document per identity, in a folder that
//! the system bus configuration includes.

use vstd::prelude::*;
use crate::assoc::{str_eq, texts};
use crate::config::{resolve_config_dir, ConfigDirError, DirCandidate};

verus! {

/// `dir` joined with the relative path `name`.
pub open spec fn join_path(dir: Seq<char>, name: Seq<char>) -> Seq<char> {
    if dir.len() > 0 && dir.last() == '/' {
        dir + name
    } else {
        dir + seq!['/'] + name
    }
}

/// Joins the relative path `name` to `dir`.
pub fn join(dir: &str, name: &str) -> (r: String)
    ensures
        r@ == join_path(dir@, name@),
{
    let n = dir.unicode_len();
    let mut s = String::new();
    s.append(dir);
    if n == 0 || dir.get_char(n - 1) != '/' {
        s.append("/");
        proof {
            reveal_strlit("/");
        }
    }
    s.append(name);
    proof {
        assert(s@ =~= join_path(dir@, name@));
    }
    s
}

/// `level` steps of four spaces.
pub open spec fn indent_text(level: nat) -> Seq<char>
    decreases level,
{
    if level == 0 {
        Seq::empty()
    } else {
        indent_text((level - 1) as nat) + "    "@
    }
}

/// The XML declaration and document type of a bus-configuration document.
pub open spec fn header_text() -> Seq<char> {
    "<?xml version=\"1.0\" encoding=\"UTF-8\"?>\n<!DOCTYPE busconfig PUBLIC\n \"-//freedesktop//DTD D-BUS Bus Configuration 1.0//EN\"\n \"http://www.freedesktop.org/standards/dbus/1.0/busconfig.dtd\">\n"@
}

/// A character as it stands in XML text or in an attribute value.
pub open spec fn escape_char(c: char) -> Seq<char> {
    if c == '&' {
        "&amp;"@
    } else if c == '<' {
        "&lt;"@
    } else if c == '>' {
        "&gt;"@
    } else if c == '"' {
        "&quot;"@
    } else if c == '\'' {
        "&apos;"@
    } else {
        seq![c]
    }
}

/// The text `s` with the XML markup characters escaped.
pub open spec fn xml_escape(s: Seq<char>) -> Seq<char>
    decreases s.len(),
{
    if s.len() == 0 {
        Seq::empty()
    } else {
        xml_escape(s.drop_last()) + escape_char(s.last())
    }
}

/// Escapes the XML markup characters of `s`.
pub fn escape(s: &str) -> (r: String)
    ensures
        r@ == xml_escape(s@),
{
    let n = s.unicode_len();
    let mut r = String::new();
    let mut i: usize = 0;
    while i < n
        invariant
            n == s@.len(),
            i <= n,
            r@ == xml_escape(s@.subrange(0, i as int)),
        decreases n - i,
    {
        let c = s.get_char(i);
        if c == '&' {
            r.append("&amp;");
        } else if c == '<' {
            r.append("&lt;");
        } else if c == '>' {
            r.append("&gt;");
        } else if c == '"' {
            r.append("&quot;");
        } else if c == '\'' {
            r.append("&apos;");
        } else {
            let one = s.substring_char(i, i + 1);
            r.append(one);
            assert(one@ =~= seq![c]);
        }
        proof {
            assert(s@.subrange(0, i + 1).drop_last() =~= s@.subrange(0, i as int));
            assert(s@.subrange(0, i + 1).last() == c);
        }
        i = i + 1;
    }
    proof {
        assert(s@.subrange(0, n as int) =~= s@);
    }
    r
}

/// One `allow` element per destination.
pub open spec fn allow_elements(destinations: Seq<Seq<char>>) -> Seq<char>
    decreases destinations.len(),
{
    if destinations.len() == 0 {
        Seq::empty()
    } else {
        allow_elements(destinations.drop_last()) + indent_text(2) + "<allow send_destination=\""@
            + xml_escape(destinations.last()) + "\"/>"@
    }
}

/// The bus-configuration document that lets `user` send to `destinations`; names are
/// escaped, so each destination gives exactly one `allow` element.
pub open spec fn policy_document_text(user: Seq<char>, destinations: Seq<Seq<char>>) -> Seq<char> {
    header_text() + "<busconfig>\n"@ + indent_text(1) + "<policy user=\""@ + xml_escape(user) + "\">"@
        + allow_elements(destinations) + indent_text(1) + "</policy>\n</busconfig>"@
}

/// The name of the policy file of `user`.
pub open spec fn policy_file_name(user: Seq<char>) -> Seq<char> {
    user + ".conf"@
}

/// The policy files in the folder after a grant to `user`.
pub open spec fn dbus_after_grant(files: Set<Seq<char>>, user: Seq<char>) -> Set<Seq<char>> {
    files.insert(policy_file_name(user))
}

/// The policy files in the folder after a revocation of `user`.
pub open spec fn dbus_after_revoke(files: Set<Seq<char>>, user: Seq<char>) -> Set<Seq<char>> {
    files.remove(policy_file_name(user))
}

/// The D-Bus policy folder and the system bus configuration that includes it.
#[derive(Debug)]
pub struct DBusPolicyBuilder {
    /// Path of the system bus configuration file.
    pub system_config: String,
    /// Path of the folder holding one policy file per identity.
    pub rootasrole_folder: String,
}

impl DBusPolicyBuilder {
    /// The locations under the bus configuration directory `datadir`.
    pub fn new(datadir: &str) -> (r: DBusPolicyBuilder)
        ensures
            r.system_config@ == join_path(datadir@, "system.conf"@),
            r.rootasrole_folder@ == join_path(datadir@, "system.d/rootasrole"@),
    {
        DBusPolicyBuilder {
            system_config: join(datadir, "system.conf"),
            rootasrole_folder: join(datadir, "system.d/rootasrole"),
        }
    }

    /// The bus configuration directory: the one named by the environment, else
    /// `/usr/share/dbus-1` if it is a directory, else `/etc/dbus-1` if it is one.
    pub fn find_datadir(
        from_env: Option<DirCandidate>,
        share_is_dir: bool,
        etc_is_dir: bool,
    ) -> (r: Result<String, ConfigDirError>)
        ensures
            match from_env {
                Some(e) => if e.is_dir {
                    r is Ok && r->Ok_0@ == e.path@
                } else {
                    r == Err::<String, ConfigDirError>(ConfigDirError::EnvDirMissing)
                },
                None => if share_is_dir {
                    r is Ok && r->Ok_0@ == "/usr/share/dbus-1"@
                } else if etc_is_dir {
                    r is Ok && r->Ok_0@ == "/etc/dbus-1"@
                } else {
                    r == Err::<String, ConfigDirError>(ConfigDirError::NotFound)
                },
            },
    {
        let mut share = String::new();
        share.append("/usr/share/dbus-1");
        let mut etc = String::new();
        etc.append("/etc/dbus-1");
        resolve_config_dir(
            from_env,
            DirCandidate { path: share, is_dir: share_is_dir },
            DirCandidate { path: etc, is_dir: etc_is_dir },
        )
    }

    /// The policy folder.
    pub fn rootasrole_folder(&self) -> (r: String)
        ensures
            r@ == self.rootasrole_folder@,
    {
        let mut s = String::new();
        s.append(self.rootasrole_folder.as_str());
        s
    }

    /// `level` steps of indentation.
    pub fn indent(level: usize) -> (r: String)
        ensures
            r@ == indent_text(level as nat),
    {
        let mut s = String::new();
        let mut i: usize = 0;
        while i < level
            invariant
                i <= level,
                s@ == indent_text(i as nat),
            decreases level - i,
        {
            s.append("    ");
            i = i + 1;
        }
        s
    }

    /// The XML declaration and document type of a policy file.
    pub fn header() -> (r: &'static str)
        ensures
            r@ == header_text(),
    {
        "<?xml version=\"1.0\" encoding=\"UTF-8\"?>\n<!DOCTYPE busconfig PUBLIC\n \"-//freedesktop//DTD D-BUS Bus Configuration 1.0//EN\"\n \"http://www.freedesktop.org/standards/dbus/1.0/busconfig.dtd\">\n"
    }

    /// The path of the policy file of `user`.
    pub fn policy_path(&self, user: &str) -> (r: String)
        ensures
            r@ == join_path(self.rootasrole_folder@, policy_file_name(user@)),
    {
        let mut name = String::new();
        name.append(user);
        name.append(".conf");
        join(self.rootasrole_folder.as_str(), name.as_str())
    }

    /// The content of the policy file that lets `user` send to `destinations`.
    pub fn policy_document(user: &str, destinations: &Vec<String>) -> (r: String)
        ensures
            r@ == policy_document_text(user@, texts(destinations@)),
    {
        let mut s = String::new();
        s.append(Self::header());
        s.append("<busconfig>\n");
        s.append(Self::indent(1).as_str());
        s.append("<policy user=\"");
        s.append(escape(user).as_str());
        s.append("\">");
        let ghost start = s@;
        let inner = Self::indent(2);
        let mut i: usize = 0;
        while i < destinations.len()
            invariant
                i <= destinations@.len(),
                inner@ == indent_text(2),
                s@ == start + allow_elements(texts(destinations@).subrange(0, i as int)),
            decreases destinations@.len() - i,
        {
            s.append(inner.as_str());
            s.append("<allow send_destination=\"");
            s.append(escape(destinations[i].as_str()).as_str());
            s.append("\"/>");
            proof {
                let t = texts(destinations@);
                assert(t.subrange(0, i + 1).drop_last() =~= t.subrange(0, i as int));
                assert(s@ =~= start + allow_elements(t.subrange(0, i + 1)));
            }
            i = i + 1;
        }
        s.append(Self::indent(1).as_str());
        s.append("</policy>\n</busconfig>");
        proof {
            assert(texts(destinations@).subrange(0, destinations@.len() as int) =~= texts(destinations@));
            assert(s@ =~= policy_document_text(user@, texts(destinations@)));
        }
        s
    }

    /// The system bus configuration `contents` made to include the policy folder once
    /// (see `updated_bus_config`): `None` when it includes it already.
    pub fn build(&self, contents: &str) -> (r: Result<Option<String>, DbusConfigError>)
        ensures
            match updated_config(contents@, self.rootasrole_folder@) {
                Err(e) => r == Err::<Option<String>, DbusConfigError>(e),
                Ok(None) => r == Ok::<Option<String>, DbusConfigError>(None),
                Ok(Some(t)) => r is Ok && r->Ok_0 is Some && r->Ok_0->Some_0@ == t,
            },
    {
        updated_bus_config(contents, self.rootasrole_folder.as_str())
    }

    /// The arguments of `systemctl` that make the system bus reload its policies.
    pub fn enforce(&self) -> (r: Vec<String>)
        ensures
            texts(r@) == seq!["reload"@, "dbus"@],
    {
        let mut a = String::new();
        a.append("reload");
        let mut b = String::new();
        b.append("dbus");
        let r = vec![a, b];
        assert(texts(r@) =~= seq!["reload"@, "dbus"@]);
        r
    }
}

/// Whether `needle` stands in `hay` at position `i`.
pub open spec fn occurs_at(hay: Seq<char>, needle: Seq<char>, i: int) -> bool {
    0 <= i && i + needle.len() <= hay.len() && hay.subrange(i, i + needle.len()) == needle
}

/// The first position of `needle` in `hay`, if it occurs.
pub open spec fn first_occurrence(hay: Seq<char>, needle: Seq<char>) -> Option<int> {
    if exists|i: int| occurs_at(hay, needle, i) {
        Some(choose|i: int| occurs_at(hay, needle, i) && forall|j: int| 0 <= j < i ==> !occurs_at(hay, needle, j))
    } else {
        None
    }
}

/// The first position of `needle` in `hay`, if it occurs.
pub fn find_text(hay: &str, needle: &str) -> (r: Option<usize>)
    ensures
        match r {
            Some(i) => first_occurrence(hay@, needle@) == Some(i as int) && occurs_at(hay@, needle@, i as int),
            None => first_occurrence(hay@, needle@) is None,
        },
{
    let n = hay.unicode_len();
    let m = needle.unicode_len();
    if m > n {
        assert forall|j: int| !occurs_at(hay@, needle@, j) by {}
        return None;
    }
    let last = n - m;
    let mut i: usize = 0;
    loop
        invariant
            n == hay@.len(),
            m == needle@.len(),
            m <= n,
            last == n - m,
            i <= last,
            forall|j: int| 0 <= j < i ==> !occurs_at(hay@, needle@, j),
        ensures
            forall|j: int| 0 <= j <= last ==> !occurs_at(hay@, needle@, j),
        decreases last - i,
    {
        if str_eq(hay.substring_char(i, i + m), needle) {
            proof {
                assert(occurs_at(hay@, needle@, i as int));
                let k = choose|k: int| occurs_at(hay@, needle@, k) && forall|j: int| 0 <= j < k ==> !occurs_at(hay@, needle@, j);
                assert(k == i);
            }
            return Some(i);
        }
        if i == last {
            break;
        }
        i = i + 1;
    }
    assert forall|j: int| !occurs_at(hay@, needle@, j) by {}
    None
}

/// The children of a bus configuration's root element, each as its name and first text.
pub uninterp spec fn root_children_of(body: Seq<char>) -> Option<Seq<(Seq<char>, Option<Seq<char>>)>>;

/// The bus configuration with an `includedir` element appended to its root, as
/// formatted XML.
pub uninterp spec fn with_includedir_of(body: Seq<char>, dir: Seq<char>) -> Option<Seq<char>>;

/// The texts of a list of element names and first texts.
pub open spec fn children_view(v: Seq<(String, Option<String>)>) -> Seq<(Seq<char>, Option<Seq<char>>)> {
    v.map_values(|c: (String, Option<String>)| (c.0@, match c.1 {
        Some(t) => Some(t@),
        None => None,
    }))
}

/// Relies on sxd-document's `parser::parse`: the element children of the root element
/// of `body`, each as its local name and the text of its first child, or `None` when
/// `body` does not parse or does not start with an element.
#[verifier::external_body]
fn root_children(body: &str) -> (r: Option<Vec<(String, Option<String>)>>)
    ensures
        match r {
            Some(v) => root_children_of(body@) == Some(children_view(v@)),
            None => root_children_of(body@) is None,
        },
{
    let package = sxd_document::parser::parse(body).ok()?;
    let doc = package.as_document();
    let root = doc.root().children().first()?.element()?;
    let mut out = Vec::new();
    for node in root.children() {
        if let Some(e) = node.element() {
            let text = e.children().first().and_then(|c| c.text()).map(|t| t.text().to_string());
            out.push((e.name().local_part().to_string(), text));
        }
    }
    Some(out)
}

/// Relies on sxd-document's `parser::parse`, `create_element`, `append_child` and
/// `writer::format_document`: `body` with `<includedir>dir</includedir>` appended to
/// its root element, formatted, or `None` when it does not parse.
#[verifier::external_body]
fn append_includedir(body: &str, dir: &str) -> (r: Option<String>)
    ensures
        match r {
            Some(t) => with_includedir_of(body@, dir@) == Some(t@),
            None => with_includedir_of(body@, dir@) is None,
        },
{
    let package = sxd_document::parser::parse(body).ok()?;
    let doc = package.as_document();
    let root = doc.root().children().first()?.element()?;
    let element = doc.create_element("includedir");
    element.append_child(doc.create_text(dir));
    root.append_child(element);
    let mut out = Vec::new();
    sxd_document::writer::format_document(&doc, &mut out).ok()?;
    String::from_utf8(out).ok()
}

/// Why the system bus configuration cannot be updated.
#[derive(Clone, Copy, Debug, PartialEq, Eq, Structural)]
pub enum DbusConfigError {
    /// The configuration has no `<busconfig>` element.
    NoBusConfig,
    /// The configuration does not parse.
    Unparsable,
}

/// Whether one of the children is an `includedir` whose text is `folder`.
pub open spec fn includes_folder(children: Seq<(Seq<char>, Option<Seq<char>>)>, folder: Seq<char>) -> bool {
    exists|i: int| 0 <= i < children.len() && #[trigger] children[i] == ("includedir"@, Some(folder))
}

/// The text after the XML declaration, or the whole text if it has none.
pub open spec fn after_declaration(t: Seq<char>) -> Seq<char> {
    match first_occurrence(t, "?>"@) {
        Some(i) => t.subrange(i + 2, t.len() as int),
        None => t,
    }
}

/// The updated configuration: `None` when it already includes `folder`, else the part
/// before `<busconfig>` followed by the rest with the include appended.
pub open spec fn updated_config(contents: Seq<char>, folder: Seq<char>) -> Result<Option<Seq<char>>, DbusConfigError> {
    match first_occurrence(contents, "<busconfig>"@) {
        None => Err(DbusConfigError::NoBusConfig),
        Some(i) => {
            let body = contents.subrange(i, contents.len() as int);
            match root_children_of(body) {
                None => Err(DbusConfigError::Unparsable),
                Some(children) => if includes_folder(children, folder) {
                    Ok(None)
                } else {
                    match with_includedir_of(body, folder) {
                        None => Err(DbusConfigError::Unparsable),
                        Some(t) => Ok(Some(contents.subrange(0, i) + after_declaration(t))),
                    }
                },
            }
        },
    }
}

/// Whether one of the children is an `includedir` whose text is `folder`.
fn has_include(children: &Vec<(String, Option<String>)>, folder: &str) -> (r: bool)
    ensures
        r == includes_folder(children_view(children@), folder@),
{
    let mut k: usize = 0;
    while k < children.len()
        invariant
            k <= children@.len(),
            forall|j: int| 0 <= j < k ==> #[trigger] children_view(children@)[j] != ("includedir"@, Some(folder@)),
        decreases children@.len() - k,
    {
        let is_include = str_eq(children[k].0.as_str(), "includedir") && match &children[k].1 {
            Some(t) => str_eq(t.as_str(), folder),
            None => false,
        };
        assert(is_include == (children_view(children@)[k as int] == ("includedir"@, Some(folder@))));
        if is_include {
            return true;
        }
        k = k + 1;
    }
    false
}

/// The text after the XML declaration, or the whole text if it has none.
fn strip_declaration(t: &str) -> (r: &str)
    ensures
        r@ == after_declaration(t@),
{
    let m = t.unicode_len();
    match find_text(t, "?>") {
        Some(i) => {
            proof {
                reveal_strlit("?>");
            }
            t.substring_char(i + 2, m)
        },
        None => t,
    }
}

/// The system bus configuration `contents` made to include `folder` once: `None` when
/// it includes it already.
pub fn updated_bus_config(contents: &str, folder: &str) -> (r: Result<Option<String>, DbusConfigError>)
    ensures
        match updated_config(contents@, folder@) {
            Err(e) => r == Err::<Option<String>, DbusConfigError>(e),
            Ok(None) => r == Ok::<Option<String>, DbusConfigError>(None),
            Ok(Some(t)) => r is Ok && r->Ok_0 is Some && r->Ok_0->Some_0@ == t,
        },
{
    let start = match find_text(contents, "<busconfig>") {
        Some(i) => i,
        None => return Err(DbusConfigError::NoBusConfig),
    };
    let n = contents.unicode_len();
    let header = contents.substring_char(0, start);
    let body = contents.substring_char(start, n);
    let children = match root_children(body) {
        Some(c) => c,
        None => return Err(DbusConfigError::Unparsable),
    };
    if has_include(&children, folder) {
        return Ok(None);
    }
    let appended = match append_includedir(body, folder) {
        Some(t) => t,
        None => return Err(DbusConfigError::Unparsable),
    };
    let rest = strip_declaration(appended.as_str());
    let mut out = String::new();
    out.append(header);
    out.append(rest);
    Ok(Some(out))
}

/// Writing the policy file of an identity that had none, then deleting it, leaves the
/// folder's files as they were.
pub proof fn lemma_dbus_round_trip(files: Set<Seq<char>>, user: Seq<char>)
    requires
        !files.contains(policy_file_name(user)),
    ensures
        dbus_after_revoke(dbus_after_grant(files, user), user) == files,
        dbus_after_grant(files, user).contains(policy_file_name(user)),
{
    assert(dbus_after_revoke(dbus_after_grant(files, user), user) =~= files);
}

} // verus!
