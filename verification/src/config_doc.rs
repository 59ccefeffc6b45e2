//! Editing the configuration file: the TOML document as a tree, the edits
//! the dashboard makes to it, and reading values back out of it.
//!
//! Parsing and rendering TOML is the `toml` crate's part; which tables an
//! edit reaches and what it sets there are decided here.
use vstd::prelude::*;

use crate::api::routes::{
    edits_are, effective_password, email_edits, email_edits_spec, same_value, ConfigEdit, ConfigValue,
    UpdateEmailRequest,
};
use crate::text::{same_str, views};

verus! {

broadcast use vstd::string::group_string_axioms;

#[verifier::external_type_specification]
#[verifier::external_body]
pub struct ExTomlValue(toml::Value);

/// A TOML value: strings, integers, booleans, arrays and tables as the
/// edits see them; floats and dates are carried along as they came.
#[derive(Debug)]
pub enum TomlTree {
    Text(String),
    Integer(i64),
    Flag(bool),
    Other(toml::Value),
    List(TomlList),
    Table(TomlTable),
}

/// The items of a TOML array, in order.
#[derive(Debug)]
pub enum TomlList {
    Nil,
    Cons(Box<TomlTree>, Box<TomlList>),
}

/// The entries of a TOML table, in order.
#[derive(Debug)]
pub enum TomlTable {
    Nil,
    Cons(String, Box<TomlTree>, Box<TomlTable>),
}

/// Which table of the configuration an edit goes to.
#[derive(Debug, Clone)]
pub enum ConfigTarget {
    /// Every `[[schedules]]` table whose `name` is this.
    Schedule(String),
    /// The table of this name under `[channels]` (`feishu`, `email`).
    Channel(String),
    /// The `[llm]` table.
    Llm,
}

/// Why a configuration file could not be edited.
#[derive(Debug, Clone, Copy, PartialEq, Eq, Structural)]
pub enum ConfigFileError {
    /// The file is not TOML.
    Parse,
    /// The edited document could not be written as TOML.
    Render,
}

/// The document `toml` reads from `text` (`str::parse::<toml::Value>`),
/// or `None` when it is not TOML.
pub uninterp spec fn toml_parse(text: Seq<char>) -> Option<TomlTree>;

/// The text `toml::to_string_pretty` writes for `doc`, or `None` when it
/// fails.
pub uninterp spec fn toml_render(doc: TomlTree) -> Option<Seq<char>>;

/// Converts a `toml::Value` into a tree, one node for one node.
#[verifier::external_body]
fn tree_of(v: toml::Value) -> TomlTree {
    match v {
        toml::Value::String(s) => TomlTree::Text(s),
        toml::Value::Integer(n) => TomlTree::Integer(n),
        toml::Value::Boolean(b) => TomlTree::Flag(b),
        toml::Value::Array(a) => TomlTree::List(
            a.into_iter().rev().fold(TomlList::Nil, |rest, x| TomlList::Cons(Box::new(tree_of(x)), Box::new(rest))),
        ),
        toml::Value::Table(t) => TomlTree::Table(
            t.into_iter().rev().fold(TomlTable::Nil, |rest, (k, x)| TomlTable::Cons(k, Box::new(tree_of(x)), Box::new(rest))),
        ),
        other => TomlTree::Other(other),
    }
}

/// Converts a tree back into a `toml::Value`, one node for one node.
#[verifier::external_body]
fn value_of(t: &TomlTree) -> toml::Value {
    match t {
        TomlTree::Text(s) => toml::Value::String(s.clone()),
        TomlTree::Integer(n) => toml::Value::Integer(*n),
        TomlTree::Flag(b) => toml::Value::Boolean(*b),
        TomlTree::Other(v) => v.clone(),
        TomlTree::List(l) => array_of(l),
        TomlTree::Table(e) => table_of(e),
    }
}

/// Converts array items into a `toml::Value` array.
#[verifier::external_body]
fn array_of(l: &TomlList) -> toml::Value {
    let mut items = Vec::new();
    let mut cur = l;
    while let TomlList::Cons(x, rest) = cur {
        items.push(value_of(x));
        cur = rest;
    }
    toml::Value::Array(items)
}

/// Converts table entries into a `toml::Value` table.
#[verifier::external_body]
fn table_of(e: &TomlTable) -> toml::Value {
    let mut map = toml::map::Map::new();
    let mut cur = e;
    while let TomlTable::Cons(k, x, rest) = cur {
        map.insert(k.clone(), value_of(x));
        cur = rest;
    }
    toml::Value::Table(map)
}

/// Parses `text` as a TOML document (`str::parse::<toml::Value>`).
/// Claimed: the result is `toml_parse(text)`.
#[verifier::external_body]
fn parse_toml(text: &str) -> (r: Option<TomlTree>)
    ensures
        r == toml_parse(text@),
{
    text.parse::<toml::Value>().ok().map(tree_of)
}

/// Writes `doc` as TOML with `toml::to_string_pretty`. Claimed: the result
/// is `toml_render(doc)`.
#[verifier::external_body]
fn render_toml(doc: &TomlTree) -> (r: Option<String>)
    ensures
        r is None <==> toml_render(*doc) is None,
        r matches Some(s) ==> toml_render(*doc) == Some(s@),
{
    toml::to_string_pretty(&value_of(doc)).ok()
}

/// The value a configuration edit writes.
pub open spec fn value_tree(v: ConfigValue) -> TomlTree {
    match v {
        ConfigValue::Text(s) => TomlTree::Text(s),
        ConfigValue::Integer(n) => TomlTree::Integer(n),
        ConfigValue::Flag(b) => TomlTree::Flag(b),
        ConfigValue::TextList(v) => TomlTree::List(text_list(v@)),
    }
}

/// An array of strings.
pub open spec fn text_list(s: Seq<String>) -> TomlList
    decreases s.len(),
{
    if s.len() == 0 {
        TomlList::Nil
    } else {
        TomlList::Cons(Box::new(TomlTree::Text(s[0])), Box::new(text_list(s.drop_first())))
    }
}

/// The value of the first entry named `key`.
pub open spec fn lookup(t: TomlTable, key: Seq<char>) -> Option<TomlTree>
    decreases t,
{
    match t {
        TomlTable::Nil => None,
        TomlTable::Cons(k, x, rest) => if k@ == key {
            Some(*x)
        } else {
            lookup(*rest, key)
        },
    }
}

/// `t` with `key` set to `v`: the first entry named `key` takes the value,
/// or a new entry is added at the end.
pub open spec fn set_key(t: TomlTable, key: String, v: TomlTree) -> TomlTable
    decreases t,
{
    match t {
        TomlTable::Nil => TomlTable::Cons(key, Box::new(v), Box::new(TomlTable::Nil)),
        TomlTable::Cons(k, x, rest) => if k@ == key@ {
            TomlTable::Cons(k, Box::new(v), rest)
        } else {
            TomlTable::Cons(k, x, Box::new(set_key(*rest, key, v)))
        },
    }
}

/// `t` with every edit set, in order.
pub open spec fn apply_edits(t: TomlTable, edits: Seq<ConfigEdit>) -> TomlTable
    decreases edits.len(),
{
    if edits.len() == 0 {
        t
    } else {
        set_key(apply_edits(t, edits.drop_last()), edits.last().key, value_tree(edits.last().value))
    }
}

/// Whether `x` is a table whose `name` is the string `name`.
pub open spec fn named(x: TomlTree, name: Seq<char>) -> bool {
    match x {
        TomlTree::Table(t) => match lookup(t, "name"@) {
            Some(TomlTree::Text(s)) => s@ == name,
            _ => false,
        },
        _ => false,
    }
}

/// The schedule tables of an array with the edits applied to those named
/// `name`.
pub open spec fn edit_schedules(l: TomlList, name: Seq<char>, edits: Seq<ConfigEdit>) -> TomlList
    decreases l,
{
    match l {
        TomlList::Nil => TomlList::Nil,
        TomlList::Cons(x, rest) => TomlList::Cons(
            Box::new(
                if named(*x, name) {
                    match *x {
                        TomlTree::Table(t) => TomlTree::Table(apply_edits(t, edits)),
                        other => other,
                    }
                } else {
                    *x
                },
            ),
            Box::new(edit_schedules(*rest, name, edits)),
        ),
    }
}

/// The entries of the table named `key` in `t`, none when it is missing or
/// not a table.
pub open spec fn sub_table(t: TomlTable, key: Seq<char>) -> TomlTable {
    match lookup(t, key) {
        Some(TomlTree::Table(e)) => e,
        _ => TomlTable::Nil,
    }
}

/// The top-level key an edit target lives under.
pub open spec fn target_key(target: ConfigTarget) -> Seq<char> {
    match target {
        ConfigTarget::Schedule(_) => "schedules"@,
        ConfigTarget::Channel(_) => "channels"@,
        ConfigTarget::Llm => "llm"@,
    }
}

/// The value under the target's top-level key after the edits: the
/// matching schedule tables edited (when it is an array); the channel's
/// table edited, or created when missing or not a table (when it is a
/// table); the `[llm]` table edited (when it is a table); anything else as
/// it was.
pub open spec fn edit_value(x: TomlTree, target: ConfigTarget, edits: Seq<ConfigEdit>) -> TomlTree {
    match target {
        ConfigTarget::Schedule(name) => match x {
            TomlTree::List(l) => TomlTree::List(edit_schedules(l, name@, edits)),
            other => other,
        },
        ConfigTarget::Channel(sub) => match x {
            TomlTree::Table(ct) => TomlTree::Table(
                set_key(ct, sub, TomlTree::Table(apply_edits(sub_table(ct, sub@), edits))),
            ),
            other => other,
        },
        ConfigTarget::Llm => match x {
            TomlTree::Table(lt) => TomlTree::Table(apply_edits(lt, edits)),
            other => other,
        },
    }
}

/// The first entry named `key` with its value edited; nothing changes when
/// there is none.
pub open spec fn edit_first(t: TomlTable, key: Seq<char>, target: ConfigTarget, edits: Seq<ConfigEdit>) -> TomlTable
    decreases t,
{
    match t {
        TomlTable::Nil => TomlTable::Nil,
        TomlTable::Cons(k, x, rest) => if k@ == key {
            TomlTable::Cons(k, Box::new(edit_value(*x, target, edits)), rest)
        } else {
            TomlTable::Cons(k, x, Box::new(edit_first(*rest, key, target, edits)))
        },
    }
}

/// The document after the edits to `target`; nothing else changes.
pub open spec fn edited(doc: TomlTree, target: ConfigTarget, edits: Seq<ConfigEdit>) -> TomlTree {
    match doc {
        TomlTree::Table(t) => TomlTree::Table(edit_first(t, target_key(target), target, edits)),
        other => other,
    }
}

fn text_list_of(v: &Vec<String>) -> (l: TomlList)
    ensures
        l == text_list(v@),
{
    let mut acc = TomlList::Nil;
    let mut i = v.len();
    assert(v@.skip(i as int) =~= Seq::<String>::empty());
    while i > 0
        invariant
            i <= v.len(),
            acc == text_list(v@.skip(i as int)),
        decreases i,
    {
        i -= 1;
        assert(v@.skip(i as int).drop_first() =~= v@.skip(i + 1));
        acc = TomlList::Cons(Box::new(TomlTree::Text(v[i].clone())), Box::new(acc));
    }
    assert(v@.skip(0) =~= v@);
    acc
}

fn value_tree_of(v: &ConfigValue) -> (t: TomlTree)
    ensures
        t == value_tree(*v),
{
    match v {
        ConfigValue::Text(s) => TomlTree::Text(s.clone()),
        ConfigValue::Integer(n) => TomlTree::Integer(*n),
        ConfigValue::Flag(b) => TomlTree::Flag(*b),
        ConfigValue::TextList(l) => TomlTree::List(text_list_of(l)),
    }
}

fn set_key_of(t: TomlTable, key: &String, v: TomlTree) -> (r: TomlTable)
    ensures
        r == set_key(t, *key, v),
    decreases t,
{
    match t {
        TomlTable::Nil => TomlTable::Cons(key.clone(), Box::new(v), Box::new(TomlTable::Nil)),
        TomlTable::Cons(k, x, rest) => {
            if same_str(k.as_str(), key.as_str()) {
                TomlTable::Cons(k, Box::new(v), rest)
            } else {
                TomlTable::Cons(k, x, Box::new(set_key_of(*rest, key, v)))
            }
        },
    }
}

fn apply_edits_of(t: TomlTable, edits: &Vec<ConfigEdit>) -> (r: TomlTable)
    ensures
        r == apply_edits(t, edits@),
{
    let ghost t0 = t;
    let mut acc = t;
    let mut i: usize = 0;
    assert(edits@.take(0) =~= Seq::<ConfigEdit>::empty());
    while i < edits.len()
        invariant
            i <= edits.len(),
            acc == apply_edits(t0, edits@.take(i as int)),
        decreases edits.len() - i,
    {
        assert(edits@.take(i + 1).drop_last() =~= edits@.take(i as int));
        assert(edits@.take(i + 1).last() == edits@[i as int]);
        let v = value_tree_of(&edits[i].value);
        acc = set_key_of(acc, &edits[i].key, v);
        i += 1;
    }
    assert(edits@.take(edits.len() as int) =~= edits@);
    acc
}

fn name_is(t: &TomlTable, name: &str) -> (b: bool)
    ensures
        b == (match lookup(*t, "name"@) {
            Some(TomlTree::Text(s)) => s@ == name@,
            _ => false,
        }),
    decreases t,
{
    match t {
        TomlTable::Nil => false,
        TomlTable::Cons(k, x, rest) => {
            if same_str(k.as_str(), "name") {
                match &**x {
                    TomlTree::Text(s) => same_str(s.as_str(), name),
                    _ => false,
                }
            } else {
                name_is(&**rest, name)
            }
        },
    }
}

fn edit_schedules_of(l: TomlList, name: &str, edits: &Vec<ConfigEdit>) -> (r: TomlList)
    ensures
        r == edit_schedules(l, name@, edits@),
    decreases l,
{
    match l {
        TomlList::Nil => TomlList::Nil,
        TomlList::Cons(x, rest) => {
            let item = *x;
            let matches = match &item {
                TomlTree::Table(t) => name_is(t, name),
                _ => false,
            };
            let new_item = if matches {
                match item {
                    TomlTree::Table(t) => TomlTree::Table(apply_edits_of(t, edits)),
                    other => other,
                }
            } else {
                item
            };
            TomlList::Cons(Box::new(new_item), Box::new(edit_schedules_of(*rest, name, edits)))
        },
    }
}

fn edit_channel_of(ct: TomlTable, sub: &String, edits: &Vec<ConfigEdit>) -> (r: TomlTable)
    ensures
        r == set_key(ct, *sub, TomlTree::Table(apply_edits(sub_table(ct, sub@), edits@))),
    decreases ct,
{
    match ct {
        TomlTable::Nil => TomlTable::Cons(
            sub.clone(),
            Box::new(TomlTree::Table(apply_edits_of(TomlTable::Nil, edits))),
            Box::new(TomlTable::Nil),
        ),
        TomlTable::Cons(k, x, rest) => {
            if same_str(k.as_str(), sub.as_str()) {
                let inner = match *x {
                    TomlTree::Table(e) => e,
                    _ => TomlTable::Nil,
                };
                TomlTable::Cons(k, Box::new(TomlTree::Table(apply_edits_of(inner, edits))), rest)
            } else {
                TomlTable::Cons(k, x, Box::new(edit_channel_of(*rest, sub, edits)))
            }
        },
    }
}

fn edit_value_of(x: TomlTree, target: &ConfigTarget, edits: &Vec<ConfigEdit>) -> (r: TomlTree)
    ensures
        r == edit_value(x, *target, edits@),
{
    match target {
        ConfigTarget::Schedule(name) => match x {
            TomlTree::List(l) => TomlTree::List(edit_schedules_of(l, name.as_str(), edits)),
            other => other,
        },
        ConfigTarget::Channel(sub) => match x {
            TomlTree::Table(ct) => TomlTree::Table(edit_channel_of(ct, sub, edits)),
            other => other,
        },
        ConfigTarget::Llm => match x {
            TomlTree::Table(lt) => TomlTree::Table(apply_edits_of(lt, edits)),
            other => other,
        },
    }
}

fn target_key_of(target: &ConfigTarget) -> (k: &'static str)
    ensures
        k@ == target_key(*target),
{
    match target {
        ConfigTarget::Schedule(_) => "schedules",
        ConfigTarget::Channel(_) => "channels",
        ConfigTarget::Llm => "llm",
    }
}

fn edit_first_of(t: TomlTable, key: &str, target: &ConfigTarget, edits: &Vec<ConfigEdit>) -> (r: TomlTable)
    ensures
        r == edit_first(t, key@, *target, edits@),
    decreases t,
{
    match t {
        TomlTable::Nil => TomlTable::Nil,
        TomlTable::Cons(k, x, rest) => {
            if same_str(k.as_str(), key) {
                TomlTable::Cons(k, Box::new(edit_value_of(*x, target, edits)), rest)
            } else {
                TomlTable::Cons(k, x, Box::new(edit_first_of(*rest, key, target, edits)))
            }
        },
    }
}

fn edited_doc(doc: TomlTree, target: &ConfigTarget, edits: &Vec<ConfigEdit>) -> (r: TomlTree)
    ensures
        r == edited(doc, *target, edits@),
{
    match doc {
        TomlTree::Table(t) => TomlTree::Table(edit_first_of(t, target_key_of(target), target, edits)),
        other => other,
    }
}

/// Applies `edits` to the table `target` names (see `edited`).
pub fn edit_target(doc: &mut TomlTree, target: &ConfigTarget, edits: &Vec<ConfigEdit>)
    ensures
        *final(doc) == edited(*old(doc), *target, edits@),
{
    let mut taken = TomlTree::Flag(false);
    std::mem::swap(&mut taken, doc);
    *doc = edited_doc(taken, target, edits);
}

/// The configuration file `content` with `edits` applied to `target`:
/// `Parse` when it is not TOML, `Render` when the edited document cannot
/// be written, else the edited document as TOML.
pub fn edit_config_text(content: &str, target: &ConfigTarget, edits: &Vec<ConfigEdit>) -> (r: Result<String, ConfigFileError>)
    ensures
        toml_parse(content@) is None ==> r == Err::<String, ConfigFileError>(ConfigFileError::Parse),
        toml_parse(content@) matches Some(d) ==> match toml_render(edited(d, *target, edits@)) {
            Some(t) => r matches Ok(s) && s@ == t,
            None => r == Err::<String, ConfigFileError>(ConfigFileError::Render),
        },
{
    match parse_toml(content) {
        None => Err(ConfigFileError::Parse),
        Some(doc) => {
            let mut new_doc = doc;
            edit_target(&mut new_doc, target, edits);
            match render_toml(&new_doc) {
                Some(s) => Ok(s),
                None => Err(ConfigFileError::Render),
            }
        },
    }
}


/// The value of the entry named `key` in the table `t`, read in place.
fn find_entry<'a>(t: &'a TomlTable, key: &str) -> (r: Option<&'a TomlTree>)
    ensures
        match r {
            Some(x) => lookup(*t, key@) == Some(*x),
            None => lookup(*t, key@) is None,
        },
    decreases t,
{
    match t {
        TomlTable::Nil => None,
        TomlTable::Cons(k, x, rest) => {
            if same_str(k.as_str(), key) {
                Some(&**x)
            } else {
                find_entry(&**rest, key)
            }
        },
    }
}

/// The table under `key` in the table `x`, when both are tables.
pub open spec fn table_under(x: Option<TomlTree>, key: Seq<char>) -> Option<TomlTable> {
    match x {
        Some(TomlTree::Table(t)) => match lookup(t, key) {
            Some(TomlTree::Table(e)) => Some(e),
            _ => None,
        },
        _ => None,
    }
}

/// The string under `key` in the table `t`, when there is one.
pub open spec fn text_under(t: Option<TomlTable>, key: Seq<char>) -> Option<String> {
    match t {
        Some(e) => match lookup(e, key) {
            Some(TomlTree::Text(s)) => Some(s),
            _ => None,
        },
        None => None,
    }
}

/// The model name in the `[llm]` table of the document, when it is a string.
pub open spec fn llm_model(doc: Option<TomlTree>) -> Option<String> {
    text_under(table_under(doc, "llm"@), "model"@)
}

/// The SMTP password stored in `[channels.email]`, or the empty string.
pub open spec fn stored_password(doc: Option<TomlTree>) -> Seq<char> {
    match text_under(
        match table_under(doc, "channels"@) {
            Some(c) => match lookup(c, "email"@) {
                Some(TomlTree::Table(e)) => Some(e),
                _ => None,
            },
            None => None,
        },
        "smtp_password"@,
    ) {
        Some(p) => p@,
        None => Seq::empty(),
    }
}

fn table_under_of<'a>(x: Option<&'a TomlTree>, key: &str) -> (r: Option<&'a TomlTable>)
    ensures
        match r {
            Some(e) => table_under(match x { Some(v) => Some(*v), None => None }, key@) == Some(*e),
            None => table_under(match x { Some(v) => Some(*v), None => None }, key@) is None,
        },
{
    match x {
        Some(TomlTree::Table(t)) => match find_entry(t, key) {
            Some(TomlTree::Table(e)) => Some(e),
            _ => None,
        },
        _ => None,
    }
}

fn text_under_of(t: Option<&TomlTable>, key: &str) -> (r: Option<String>)
    ensures
        r == text_under(match t { Some(e) => Some(*e), None => None }, key@),
{
    match t {
        Some(e) => match find_entry(e, key) {
            Some(TomlTree::Text(s)) => Some(s.clone()),
            _ => None,
        },
        None => None,
    }
}

/// The model name the configuration file `content` sets in `[llm]`, or
/// `None` when it is not TOML or sets none as a string.
pub fn llm_model_of(content: &str) -> (m: Option<String>)
    ensures
        m == llm_model(toml_parse(content@)),
{
    let doc = parse_toml(content);
    let llm = table_under_of(doc.as_ref(), "llm");
    text_under_of(llm, "model")
}

/// The SMTP password the configuration file `content` stores in
/// `[channels.email]`, or the empty string.
pub fn stored_email_password(content: &str) -> (p: String)
    ensures
        p@ == stored_password(toml_parse(content@)),
{
    let doc = parse_toml(content);
    let channels = table_under_of(doc.as_ref(), "channels");
    let email = match channels {
        Some(c) => match find_entry(c, "email") {
            Some(TomlTree::Table(e)) => Some(e),
            _ => None,
        },
        None => None,
    };
    match text_under_of(email, "smtp_password") {
        Some(p) => p,
        None => String::new(),
    }
}


/// The SMTP password an email update keeps: the requested one, or the
/// stored one when the request leaves it empty.
pub open spec fn email_password(doc: Option<TomlTree>, req: UpdateEmailRequest) -> Seq<char> {
    if req.smtp_password@.len() == 0 {
        stored_password(doc)
    } else {
        req.smtp_password@
    }
}

/// Whether `e` are the edits of an email update that keeps the password
/// `pw`.
pub open spec fn sets_email(e: Seq<ConfigEdit>, req: UpdateEmailRequest, pw: Seq<char>) -> bool {
    exists|p: String| p@ == pw && #[trigger] edits_are(e, email_edits_spec(req, p))
}

/// The configuration file `content` with the email settings of `req` set in
/// `[channels.email]` (the table is created when missing; the document of a
/// file without a `[channels]` table is left as it was), and the password kept:
/// `Parse` when it is not TOML, `Render` when the edited document cannot be
/// written.
pub fn edit_email_config(content: &str, req: &UpdateEmailRequest) -> (r: Result<(String, String), ConfigFileError>)
    ensures
        toml_parse(content@) is None ==> r == Err::<(String, String), ConfigFileError>(ConfigFileError::Parse),
        toml_parse(content@) matches Some(d) ==> exists|e: Seq<ConfigEdit>, sub: String|
            #![trigger edited(d, ConfigTarget::Channel(sub), e)]
            sub@ == "email"@ && sets_email(e, *req, email_password(toml_parse(content@), *req))
                && (table_under(Some(d), "channels"@) is Some ==> email_settings_in(
                edited(d, ConfigTarget::Channel(sub), e),
                *req,
                email_password(toml_parse(content@), *req),
            )) && (table_under(Some(d), "channels"@) is None ==> edited(d, ConfigTarget::Channel(sub), e) == d)
                && match toml_render(edited(d, ConfigTarget::Channel(sub), e)) {
                Some(t) => r matches Ok((s, p)) && s@ == t && p@ == email_password(toml_parse(content@), *req),
                None => r == Err::<(String, String), ConfigFileError>(ConfigFileError::Render),
            },
{
    let stored = stored_email_password(content);
    let password = effective_password(req.smtp_password.as_str(), stored.as_str());
    let edits = email_edits(req, &password);
    let target = ConfigTarget::Channel(String::from_str("email"));
    let ghost pw = password;
    assert(sets_email(edits@, *req, email_password(toml_parse(content@), *req))) by {
        assert(edits_are(edits@, email_edits_spec(*req, pw)));
    }
    let r = edit_config_text(content, &target, &edits);
    proof {
        if let Some(d) = toml_parse(content@) {
            if let ConfigTarget::Channel(sub) = target {
                assert(edited(d, ConfigTarget::Channel(sub), edits@) == edited(d, target, edits@));
                law_email_update_written(d, edits@, sub, *req, email_password(toml_parse(content@), *req));
            }
        }
    }
    match r {
        Ok(s) => Ok((s, password)),
        Err(e) => Err(e),
    }
}


/// The value the last edit of `key` in `edits` sets, if any edits it.
pub open spec fn last_value(edits: Seq<ConfigEdit>, key: Seq<char>) -> Option<ConfigValue>
    decreases edits.len(),
{
    if edits.len() == 0 {
        None
    } else if edits.last().key@ == key {
        Some(edits.last().value)
    } else {
        last_value(edits.drop_last(), key)
    }
}

/// Setting a key is read back at that key and changes no other key.
pub proof fn law_set_key_reads_back(t: TomlTable, key: String, v: TomlTree, q: Seq<char>)
    ensures
        lookup(set_key(t, key, v), q) == if q == key@ {
            Some(v)
        } else {
            lookup(t, q)
        },
    decreases t,
{
    if let TomlTable::Cons(k, x, rest) = t {
        if k@ != key@ {
            law_set_key_reads_back(*rest, key, v, q);
        }
    }
}

/// After a list of edits each key reads back the value its last edit set,
/// and keys no edit names read back what they held.
pub proof fn law_edits_read_back(t: TomlTable, edits: Seq<ConfigEdit>, q: Seq<char>)
    ensures
        lookup(apply_edits(t, edits), q) == match last_value(edits, q) {
            Some(v) => Some(value_tree(v)),
            None => lookup(t, q),
        },
    decreases edits.len(),
{
    if edits.len() > 0 {
        law_edits_read_back(t, edits.drop_last(), q);
        law_set_key_reads_back(apply_edits(t, edits.drop_last()), edits.last().key, value_tree(edits.last().value), q);
    }
}

proof fn lemma_edit_first_lookup(t: TomlTable, key: Seq<char>, target: ConfigTarget, edits: Seq<ConfigEdit>, q: Seq<char>)
    ensures
        lookup(edit_first(t, key, target, edits), q) == if q == key {
            match lookup(t, q) {
                Some(x) => Some(edit_value(x, target, edits)),
                None => None,
            }
        } else {
            lookup(t, q)
        },
    decreases t,
{
    if let TomlTable::Cons(k, x, rest) = t {
        if k@ != key {
            lemma_edit_first_lookup(*rest, key, target, edits, q);
        }
    }
}

/// The model name read from an edited document: what the edits to `[llm]`
/// last set for `model` when that is a string, none when they set another
/// kind of value, and the model it held when they leave `model` alone. A
/// document without an `[llm]` table is left as it was.
pub proof fn law_llm_model_reads_back(doc: TomlTree, edits: Seq<ConfigEdit>)
    ensures
        llm_model(Some(edited(doc, ConfigTarget::Llm, edits))) == if table_under(Some(doc), "llm"@) is Some {
            match last_value(edits, "model"@) {
                Some(ConfigValue::Text(s)) => Some(s),
                Some(_) => None,
                None => llm_model(Some(doc)),
            }
        } else {
            llm_model(Some(doc))
        },
{
    if let TomlTree::Table(t) = doc {
        lemma_edit_first_lookup(t, "llm"@, ConfigTarget::Llm, edits, "llm"@);
        if let Some(TomlTree::Table(l)) = lookup(t, "llm"@) {
            law_edits_read_back(l, edits, "model"@);
        }
    }
}


/// The strings of an array, or `None` when an item is not a string.
pub open spec fn list_texts(l: TomlList) -> Option<Seq<Seq<char>>>
    decreases l,
{
    match l {
        TomlList::Nil => Some(seq![]),
        TomlList::Cons(x, rest) => match (*x, list_texts(*rest)) {
            (TomlTree::Text(s), Some(r)) => Some(seq![s@] + r),
            _ => None,
        },
    }
}

/// The string at `key` in `t`, when it is one.
pub open spec fn text_at(t: TomlTable, key: Seq<char>) -> Option<Seq<char>> {
    match lookup(t, key) {
        Some(TomlTree::Text(s)) => Some(s@),
        _ => None,
    }
}

/// The strings of the array at `key` in `t`, when it is an array of strings.
pub open spec fn texts_at(t: TomlTable, key: Seq<char>) -> Option<Seq<Seq<char>>> {
    match lookup(t, key) {
        Some(TomlTree::List(l)) => list_texts(l),
        _ => None,
    }
}

/// The table `[channels.<name>]` of a document, when there is one.
pub open spec fn channel_table(doc: TomlTree, name: Seq<char>) -> Option<TomlTable> {
    match table_under(Some(doc), "channels"@) {
        Some(c) => match lookup(c, name) {
            Some(TomlTree::Table(e)) => Some(e),
            _ => None,
        },
        None => None,
    }
}

/// Whether `[channels.email]` of `doc` holds the settings of `req` with the
/// password `pw`.
pub open spec fn email_settings_in(doc: TomlTree, req: UpdateEmailRequest, pw: Seq<char>) -> bool {
    match channel_table(doc, "email"@) {
        Some(t) => {
            &&& lookup(t, "enabled"@) == Some(TomlTree::Flag(req.enabled))
            &&& text_at(t, "smtp_host"@) == Some(req.smtp_host@)
            &&& lookup(t, "smtp_port"@) == Some(TomlTree::Integer(req.smtp_port as i64))
            &&& text_at(t, "smtp_username"@) == Some(req.smtp_username@)
            &&& text_at(t, "smtp_password"@) == Some(pw)
            &&& text_at(t, "from"@) == Some(req.from@)
            &&& texts_at(t, "to"@) == Some(views(req.to@))
        },
        None => false,
    }
}

proof fn lemma_text_list_texts(s: Seq<String>)
    ensures
        list_texts(text_list(s)) == Some(views(s)),
    decreases s.len(),
{
    if s.len() > 0 {
        lemma_text_list_texts(s.drop_first());
        assert(views(s) == seq![s[0]@] + views(s.drop_first()));
    } else {
        assert(views(s) == Seq::<Seq<char>>::empty());
    }
}

proof fn lemma_last_value_at(e: Seq<ConfigEdit>, q: Seq<char>, i: int)
    requires
        0 <= i < e.len(),
        e[i].key@ == q,
        forall|j: int| i < j < e.len() ==> (#[trigger] e[j]).key@ != q,
    ensures
        last_value(e, q) == Some(e[i].value),
    decreases e.len(),
{
    if i < e.len() - 1 {
        assert(e.last() == e[e.len() - 1]);
        let d = e.drop_last();
        assert forall|j: int| i < j < d.len() implies (#[trigger] d[j]).key@ != q by {
            assert(d[j] == e[j]);
        }
        assert(d[i] == e[i]);
        lemma_last_value_at(d, q, i);
    }
}

proof fn lemma_edit_first_unchanged(t: TomlTable, key: Seq<char>, target: ConfigTarget, edits: Seq<ConfigEdit>)
    requires
        forall|x: TomlTree| lookup(t, key) == Some(x) ==> edit_value(x, target, edits) == x,
    ensures
        edit_first(t, key, target, edits) == t,
    decreases t,
{
    if let TomlTable::Cons(k, x, rest) = t {
        if k@ != key {
            lemma_edit_first_unchanged(*rest, key, target, edits);
        } else {
            assert(lookup(t, key) == Some(*x));
        }
    }
}

/// An email update writes the request's settings and the password it
/// keeps into `[channels.email]` (creating the table when needed), when the
/// document has a `[channels]` table; without one the document is left as
/// it was.
pub proof fn law_email_update_written(
    doc: TomlTree,
    edits: Seq<ConfigEdit>,
    sub: String,
    req: UpdateEmailRequest,
    pw: Seq<char>,
)
    requires
        sub@ == "email"@,
        sets_email(edits, req, pw),
    ensures
        table_under(Some(doc), "channels"@) is Some ==> email_settings_in(
            edited(doc, ConfigTarget::Channel(sub), edits),
            req,
            pw,
        ),
        table_under(Some(doc), "channels"@) is None ==> edited(doc, ConfigTarget::Channel(sub), edits) == doc,
{
    let target = ConfigTarget::Channel(sub);
    let p = choose|p: String| p@ == pw && #[trigger] edits_are(edits, email_edits_spec(req, p));
    let want = email_edits_spec(req, p);
    if let TomlTree::Table(t) = doc {
        if let Some(TomlTree::Table(ct)) = lookup(t, "channels"@) {
            let out = edited(doc, target, edits);
            lemma_edit_first_lookup(t, "channels"@, target, edits, "channels"@);
            let inner = apply_edits(sub_table(ct, "email"@), edits);
            let chans = set_key(ct, sub, TomlTree::Table(inner));
            assert(table_under(Some(out), "channels"@) == Some(chans));
            law_set_key_reads_back(ct, sub, TomlTree::Table(inner), "email"@);
            assert(channel_table(out, "email"@) == Some(inner));
            reveal_strlit("enabled");
            reveal_strlit("smtp_host");
            reveal_strlit("smtp_port");
            reveal_strlit("smtp_username");
            reveal_strlit("smtp_password");
            reveal_strlit("from");
            reveal_strlit("to");
            assert(edits.len() == 7);
            assert forall|i: int| 0 <= i < 7 implies (#[trigger] edits[i]).key@ == want[i].0 && same_value(
                edits[i].value,
                want[i].1,
            ) by {}
            let keys = seq!["enabled"@, "smtp_host"@, "smtp_port"@, "smtp_username"@, "smtp_password"@, "from"@, "to"@];
            assert forall|i: int| 0 <= i < 7 implies #[trigger] edits[i].key@ == keys[i] by {}
            assert forall|i: int| 0 <= i < 7 implies last_value(edits, keys[i]) == Some(#[trigger] edits[i].value) by {
                assert forall|j: int| i < j < edits.len() implies (#[trigger] edits[j]).key@ != keys[i] by {
                    assert(edits[j].key@ == keys[j]);
                    assert(keys[j] != keys[i]) by {
                        assert(keys[0].len() == 7 && keys[1].len() == 9 && keys[2].len() == 9);
                        assert(keys[3].len() == 13 && keys[4].len() == 13 && keys[5].len() == 4 && keys[6].len() == 2);
                        assert(keys[1][5] == 'h' && keys[2][5] == 'p');
                        assert(keys[3][5] == 'u' && keys[4][5] == 'p');
                        if keys[j].len() == keys[i].len() {
                            assert(keys[j][5] != keys[i][5]);
                        }
                    }
                }
                lemma_last_value_at(edits, keys[i], i);
            }
            assert forall|i: int| 0 <= i < 7 implies lookup(inner, keys[i]) == Some(value_tree(#[trigger] edits[i].value)) by {
                law_edits_read_back(sub_table(ct, "email"@), edits, keys[i]);
            }
            assert(lookup(inner, keys[0]) == Some(value_tree(edits[0].value)));
            assert(lookup(inner, keys[1]) == Some(value_tree(edits[1].value)));
            assert(lookup(inner, keys[2]) == Some(value_tree(edits[2].value)));
            assert(lookup(inner, keys[3]) == Some(value_tree(edits[3].value)));
            assert(lookup(inner, keys[4]) == Some(value_tree(edits[4].value)));
            assert(lookup(inner, keys[5]) == Some(value_tree(edits[5].value)));
            assert(lookup(inner, keys[6]) == Some(value_tree(edits[6].value)));
            if let ConfigValue::TextList(v) = edits[6].value {
                lemma_text_list_texts(v@);
            }
            assert(same_value(edits[6].value, want[6].1));
        } else {
            lemma_edit_first_unchanged(t, "channels"@, target, edits);
        }
    }
}

} // verus!
