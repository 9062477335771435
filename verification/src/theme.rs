//! The theme of the application: `light` or `dark`.

use vstd::prelude::*;

verus! {

/// Whether `name` names a theme.
pub open spec fn is_theme(name: Seq<char>) -> bool {
    name == "light"@ || name == "dark"@
}

/// The theme that a saved entry stands for: the entry where it names a theme,
/// and `light` otherwise.
pub open spec fn theme_or_default(entry: Option<Seq<char>>) -> Seq<char> {
    if entry is Some && is_theme(entry.unwrap()) {
        entry.unwrap()
    } else {
        "light"@
    }
}

/// The theme after a toggle: `light` after `dark`, and `dark` after anything
/// else.
pub open spec fn toggled(current: Seq<char>) -> Seq<char> {
    if current == "dark"@ {
        "light"@
    } else {
        "dark"@
    }
}

/// The string under the key `key` of the JSON document that `content` holds;
/// nothing where `content` is no JSON document, or the document is no object
/// or holds no string under that key.
pub uninterp spec fn string_entry(content: Seq<char>, key: Seq<char>) -> Option<Seq<char>>;

/// The theme entry of the settings document that `content` holds.
pub open spec fn theme_entry(content: Seq<char>) -> Option<Seq<char>> {
    string_entry(content, "theme"@)
}

/// Parses `content` with `serde_json::from_str` and takes the string under
/// `key` out of the document, with `Value::get` and `Value::as_str`.
#[verifier::external_body]
fn read_string_entry(content: &str, key: &str) -> (entry: Option<String>)
    ensures
        entry is Some <==> string_entry(content@, key@) is Some,
        entry is Some ==> entry.unwrap()@ == string_entry(content@, key@).unwrap(),
{
    match serde_json::from_str::<serde_json::Value>(content) {
        Ok(doc) => doc.get(key).and_then(|t| t.as_str()).map(|s| s.to_string()),
        Err(_) => None,
    }
}

/// Whether `theme` names a theme.
pub fn is_valid_theme(theme: &String) -> (ok: bool)
    ensures
        ok == is_theme(theme@),
{
    let light = "light".to_string();
    let dark = "dark".to_string();
    *theme == light || *theme == dark
}

/// The theme that a saved entry stands for.
pub fn pick_theme(entry: Option<String>) -> (theme: String)
    ensures
        theme@ == theme_or_default(
            match entry {
                Some(e) => Some(e@),
                None => None,
            },
        ),
{
    match entry {
        Some(e) => {
            if is_valid_theme(&e) {
                e
            } else {
                "light".to_string()
            }
        },
        None => "light".to_string(),
    }
}

/// The theme saved in a settings file whose text is `content`; nothing stands
/// for a file that is missing or cannot be read.
pub fn load_theme(content: Option<&str>) -> (theme: String)
    ensures
        theme@ == theme_or_default(
            match content {
                Some(c) => theme_entry(c@),
                None => None,
            },
        ),
{
    match content {
        Some(c) => pick_theme(read_string_entry(c, "theme")),
        None => "light".to_string(),
    }
}

/// The theme in use.
pub struct ThemeState {
    current_theme: String,
}

impl ThemeState {
    /// The name of the theme in use.
    pub closed spec fn theme(&self) -> Seq<char> {
        self.current_theme@
    }

    /// The state at start: the theme saved in the settings file whose text is
    /// `saved`, or `light` where none is saved there.
    pub fn new(saved: Option<&str>) -> (state: Self)
        ensures
            state.theme() == theme_or_default(
                match saved {
                    Some(c) => theme_entry(c@),
                    None => None,
                },
            ),
    {
        ThemeState { current_theme: load_theme(saved) }
    }
}

/// The theme in use.
pub fn get_theme(state: &ThemeState) -> (theme: String)
    ensures
        theme@ == state.theme(),
{
    state.current_theme.clone()
}

/// Takes `theme` into use where it names a theme, and returns it; refuses any
/// other name and leaves the state as it is.
pub fn set_theme(theme: String, state: &mut ThemeState) -> (res: Result<String, String>)
    ensures
        res is Ok <==> is_theme(theme@),
        res is Ok ==> res->Ok_0@ == theme@ && final(state).theme() == theme@,
        res is Err ==> res->Err_0@ == "Invalid theme value. Must be 'light' or 'dark'"@
            && final(state).theme() == old(state).theme(),
{
    if !is_valid_theme(&theme) {
        return Err("Invalid theme value. Must be 'light' or 'dark'".to_string());
    }
    state.current_theme = theme.clone();
    Ok(theme)
}

/// The theme that a toggle would take into use.
pub fn next_theme(state: &ThemeState) -> (theme: String)
    ensures
        theme@ == toggled(state.theme()),
{
    let dark = "dark".to_string();
    if state.current_theme == dark {
        "light".to_string()
    } else {
        dark
    }
}

/// Takes the other theme into use and returns it.
pub fn toggle_theme(state: &mut ThemeState) -> (theme: String)
    ensures
        theme@ == toggled(old(state).theme()),
        final(state).theme() == theme@,
{
    let theme = next_theme(state);
    state.current_theme = theme.clone();
    theme
}

} // verus!
