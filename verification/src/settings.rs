use vstd::prelude::*;

verus! {

/// The colours of the user interface.
pub struct ColorTheme {
    pub viewport_bg: String,
    pub panel_bg: String,
    pub focal_hl: String,
    pub panel_hl: String,
    pub text_color: String,
}

impl Default for ColorTheme {
    fn default() -> (res: Self)
        ensures
            res.viewport_bg@ == "#0d0d11ff"@,
            res.panel_bg@ == "#431d1f"@,
            res.focal_hl@ == "#f4902dff"@,
            res.panel_hl@ == "#741f2fff"@,
            res.text_color@ == "#f0f0f0"@,
    {
        ColorTheme {
            viewport_bg: String::from_str("#0d0d11ff"),
            panel_bg: String::from_str("#431d1f"),
            focal_hl: String::from_str("#f4902dff"),
            panel_hl: String::from_str("#741f2fff"),
            text_color: String::from_str("#f0f0f0"),
        }
    }
}

/// Appends the relative component `part` to `base` as `PathBuf::push` does
/// on Unix: a `/` separates them unless `base` is empty or already ends in one.
pub open spec fn push_component(base: Seq<char>, part: Seq<char>) -> Seq<char> {
    if base.len() == 0 {
        part
    } else if base.last() == '/' {
        base + part
    } else {
        base + seq!['/'] + part
    }
}

/// Appends `part` to `base`; see `push_component`.
pub(crate) fn push_component_exec(base: &mut String, part: &str)
    ensures
        final(base)@ == push_component(old(base)@, part@),
{
    let n = base.as_str().unicode_len();
    if n > 0 && base.as_str().get_char(n - 1) != '/' {
        crate::text::push_char(base, '/');
    }
    base.append(part);
}

/// The location of a vault's settings file: `<vault>/.karta/settings.json`.
pub fn get_settings_path(vault_path: &str) -> (res: String)
    ensures
        res@ == push_component(push_component(vault_path@, ".karta"@), "settings.json"@),
{
    let mut path = String::from_str(vault_path);
    push_component_exec(&mut path, ".karta");
    push_component_exec(&mut path, "settings.json");
    path
}

} // verus!
