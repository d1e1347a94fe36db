//! Pastes: who may write, see and edit them, and how they are shown.

use vstd::prelude::*;
use vstd::string::*;
#[allow(unused_imports)]
use vstd::utf8::encode_utf8;

use crate::config::{ActionRule, RuntimeSettings, ServerConfig};
use crate::error::AppError;
use crate::http::ResponseHead;
use crate::model::{Paste, Role, User};
use crate::policy;
use crate::text::{opt_owned, opt_str, same, trim, trim_present};
use crate::web::support::{app_base_url, authorize_item_view, validate_csrf};

#[allow(unused_imports)]
use crate::error::{seen, ErrorView};
#[allow(unused_imports)]
use crate::http::{is_visible_chars, no_headers, with_header};
#[allow(unused_imports)]
use crate::policy::{permits, role_of};
#[allow(unused_imports)]
use crate::text::{
    is_white_space, only_blank_texts_are_trimmed_away, opt_string_view, opt_view, present, trimmed,
};
#[allow(unused_imports)]
use crate::web::support::{app_base, caller_of, csrf_check, may_view};

verus! {

/// The syntaxes of `syntect`.
#[verifier::external_type_specification]
#[verifier::external_body]
pub struct ExSyntaxSet(syntect::parsing::SyntaxSet);

/// The themes of `syntect`.
#[verifier::external_type_specification]
#[verifier::external_body]
pub struct ExThemeSet(syntect::highlighting::ThemeSet);

/// One syntax of `syntect`.
#[verifier::external_type_specification]
#[verifier::external_body]
pub struct ExSyntaxReference(syntect::parsing::SyntaxReference);

/// One theme of `syntect`.
#[verifier::external_type_specification]
#[verifier::external_body]
pub struct ExTheme(syntect::highlighting::Theme);

/// The syntaxes and themes that come with `syntect`. Their definitions take several megabytes each,
/// so they are loaded once and shared.
pub struct Highlighting {
    syntaxes: syntect::parsing::SyntaxSet,
    themes: syntect::highlighting::ThemeSet,
}

/// The themes of a set by their names.
pub uninterp spec fn theme_table(themes: syntect::highlighting::ThemeSet) -> Map<
    Seq<char>,
    syntect::highlighting::Theme,
>;

/// The syntaxes of a set by the tokens that find them: their file extensions and their names.
pub uninterp spec fn token_table(syntaxes: syntect::parsing::SyntaxSet) -> Map<
    Seq<char>,
    syntect::parsing::SyntaxReference,
>;

/// The syntaxes of a set by their names.
pub uninterp spec fn name_table(syntaxes: syntect::parsing::SyntaxSet) -> Map<
    Seq<char>,
    syntect::parsing::SyntaxReference,
>;

/// The bundled theme with a name, as `ThemeSet::load_defaults` holds it.
pub uninterp spec fn bundled_theme(name: Seq<char>) -> Option<syntect::highlighting::Theme>;

/// The bundled syntax that a token finds, as `SyntaxSet::load_defaults_newlines` holds it.
pub uninterp spec fn token_syntax(token: Seq<char>) -> Option<syntect::parsing::SyntaxReference>;

/// The bundled syntax with a name, as `SyntaxSet::load_defaults_newlines` holds it.
pub uninterp spec fn named_syntax(name: Seq<char>) -> Option<syntect::parsing::SyntaxReference>;

/// What a table holds under a key.
pub open spec fn entry<T>(table: Map<Seq<char>, T>, key: Seq<char>) -> Option<T> {
    if table.contains_key(key) {
        Some(table[key])
    } else {
        None
    }
}

/// What `syntect::html::highlighted_html_for_string` makes of a text in a bundled syntax; `None`
/// for an error.
pub uninterp spec fn highlighted_html(
    content: Seq<char>,
    syntax: syntect::parsing::SyntaxReference,
    theme: syntect::highlighting::Theme,
) -> Option<Seq<char>>;

/// The view of an optional theme or syntax that is borrowed.
pub open spec fn opt_value<T>(r: Option<&T>) -> Option<T> {
    match r {
        Some(v) => Some(*v),
        None => None,
    }
}

/// Calls `ThemeSet::load_defaults`, which loads the themes that are bundled with the crate: the same
/// ones each time, and `base16-ocean.dark` is documented to be among them.
#[verifier::external_body]
fn load_themes() -> (r: syntect::highlighting::ThemeSet)
    ensures
        forall|name: Seq<char>| #[trigger] entry(theme_table(r), name) == bundled_theme(name),
        theme_table(r).contains_key("base16-ocean.dark"@),
{
    syntect::highlighting::ThemeSet::load_defaults()
}

/// Calls `SyntaxSet::load_defaults_newlines`, which loads the syntaxes that are bundled with the
/// crate: the same ones each time, with the one for plain text that every set ought to have.
#[verifier::external_body]
fn load_syntaxes() -> (r: syntect::parsing::SyntaxSet)
    ensures
        forall|token: Seq<char>| #[trigger] entry(token_table(r), token) == token_syntax(token),
        forall|name: Seq<char>| #[trigger] entry(name_table(r), name) == named_syntax(name),
        name_table(r).contains_key("Plain Text"@),
{
    syntect::parsing::SyntaxSet::load_defaults_newlines()
}

impl Highlighting {
    /// The theme with a name.
    pub closed spec fn theme_named(&self, name: Seq<char>) -> Option<syntect::highlighting::Theme> {
        entry(theme_table(self.themes), name)
    }

    /// The syntax that a token finds.
    pub closed spec fn syntax_for(&self, token: Seq<char>) -> Option<
        syntect::parsing::SyntaxReference,
    > {
        entry(token_table(self.syntaxes), token)
    }

    /// The syntax with a name.
    pub closed spec fn syntax_named(&self, name: Seq<char>) -> Option<
        syntect::parsing::SyntaxReference,
    > {
        entry(name_table(self.syntaxes), name)
    }

    /// Whether these are the syntaxes and themes that come with `syntect`, and no others, with the
    /// theme and the fallback that pastes are shown in among them.
    pub open spec fn is_bundled(&self) -> bool {
        &&& forall|name: Seq<char>| #[trigger] self.theme_named(name) == bundled_theme(name)
        &&& forall|token: Seq<char>| #[trigger] self.syntax_for(token) == token_syntax(token)
        &&& forall|name: Seq<char>| #[trigger] self.syntax_named(name) == named_syntax(name)
        &&& self.theme_named("base16-ocean.dark"@) is Some
        &&& self.syntax_named("Plain Text"@) is Some
    }

    #[verifier::type_invariant]
    spec fn holds_the_bundled_tables(&self) -> bool {
        self.is_bundled()
    }

    /// `BTreeMap::get` looks a theme up by its name in the table of a `ThemeSet`.
    #[verifier::external_body]
    fn theme(&self, name: &str) -> (r: Option<&syntect::highlighting::Theme>)
        ensures
            opt_value(r) == self.theme_named(name@),
    {
        self.themes.themes.get(name)
    }

    /// `SyntaxSet::find_syntax_by_token` looks a syntax up by a file extension or else by its name.
    #[verifier::external_body]
    fn syntax_by_token(&self, token: &str) -> (r: Option<&syntect::parsing::SyntaxReference>)
        ensures
            opt_value(r) == self.syntax_for(token@),
    {
        self.syntaxes.find_syntax_by_token(token)
    }

    /// `SyntaxSet::find_syntax_plain_text` gives the syntax with the name `Plain Text`. It panics
    /// where there is none.
    #[verifier::external_body]
    fn plain_text_syntax(&self) -> (r: &syntect::parsing::SyntaxReference)
        requires
            self.syntax_named("Plain Text"@) is Some,
        ensures
            Some(*r) == self.syntax_named("Plain Text"@),
    {
        self.syntaxes.find_syntax_plain_text()
    }

    /// Calls `syntect::html::highlighted_html_for_string`. Among the bundled syntaxes the result
    /// depends on the text, the syntax and the theme alone.
    #[verifier::external_body]
    fn highlight(
        &self,
        content: &str,
        syntax: &syntect::parsing::SyntaxReference,
        theme: &syntect::highlighting::Theme,
    ) -> (r: Option<String>)
        requires
            self.is_bundled(),
        ensures
            opt_string_view(r) == highlighted_html(content@, *syntax, *theme),
    {
        syntect::html::highlighted_html_for_string(content, &self.syntaxes, syntax, theme).ok()
    }

    /// Loads the bundled syntaxes and themes.
    pub fn new() -> (r: Self)
        ensures
            r.is_bundled(),
    {
        Highlighting { syntaxes: load_syntaxes(), themes: load_themes() }
    }
}

/// What a character of a text is written as in HTML.
pub open spec fn escaped_char(c: char) -> Seq<char> {
    if c == '&' {
        "&amp;"@
    } else if c == '<' {
        "&lt;"@
    } else if c == '>' {
        "&gt;"@
    } else {
        seq![c]
    }
}

/// A text as it is written in HTML.
pub open spec fn escaped(s: Seq<char>) -> Seq<char>
    decreases s.len(),
{
    if s.len() == 0 {
        Seq::empty()
    } else {
        escaped(s.drop_last()) + escaped_char(s.last())
    }
}

/// `html_escape::encode_text` writes ampersands and angle brackets as entities and leaves all
/// other characters alone.
#[verifier::external_body]
fn encode_text(content: &str) -> (r: String)
    ensures
        r@ == escaped(content@),
{
    html_escape::encode_text(content).into_owned()
}

/// A paste as a block of plain text.
pub open spec fn plain_block(content: Seq<char>) -> Seq<char> {
    "<pre class=\"paste-body\"><code>"@ + escaped(content) + "</code></pre>"@
}

/// A paste as a block of plain text.
pub fn plain_paste_body(content: &str) -> (r: String)
    ensures
        r@ == plain_block(content@),
{
    let mut html: String = "<pre class=\"paste-body\"><code>".to_owned();
    html.append(encode_text(content).as_str());
    html.append("</code></pre>");
    html
}

/// The syntax that a paste is shown in: the one its token stands for, else that of plain text.
pub open spec fn shown_syntax(token: Seq<char>) -> syntect::parsing::SyntaxReference {
    match token_syntax(token) {
        Some(syntax) => syntax,
        None => named_syntax("Plain Text"@)->0,
    }
}

/// What a paste is shown as, where `html` is what highlighting gave.
pub open spec fn block_of(content: Seq<char>, html: Option<Seq<char>>) -> Seq<char> {
    match html {
        Some(html) => html,
        None => plain_block(content),
    }
}

/// What a paste is shown as.
pub open spec fn rendered_paste(content: Seq<char>, syntax: Option<Seq<char>>) -> Seq<char> {
    match (syntax, bundled_theme("base16-ocean.dark"@)) {
        (Some(token), Some(theme)) if trimmed(token).len() > 0 => block_of(
            content,
            highlighted_html(content, shown_syntax(token), theme),
        ),
        _ => plain_block(content),
    }
}

/// What a paste is shown as, where `html` is what highlighting gave.
pub fn paste_block(content: &str, html: Option<String>) -> (r: String)
    ensures
        r@ == block_of(content@, opt_string_view(html)),
{
    match html {
        Some(html) => html,
        None => plain_paste_body(content),
    }
}

/// Highlights paste content. Blocking and CPU-bound for large pastes.
pub fn render_paste_content(
    highlighting: &Highlighting,
    content: &str,
    syntax: Option<&str>,
) -> (r: String)
    ensures
        r@ == rendered_paste(content@, opt_view(syntax)),
{
    proof {
        use_type_invariant(highlighting);
    }
    let token: &str = match syntax {
        Some(token) => token,
        None => {
            return plain_paste_body(content);
        },
    };
    if trim(token).is_empty() {
        return plain_paste_body(content);
    }
    let theme: &syntect::highlighting::Theme = match highlighting.theme("base16-ocean.dark") {
        Some(theme) => theme,
        None => {
            return plain_paste_body(content);
        },
    };
    let syntax: &syntect::parsing::SyntaxReference = match highlighting.syntax_by_token(token) {
        Some(syntax) => syntax,
        None => highlighting.plain_text_syntax(),
    };
    paste_block(content, highlighting.highlight(content, syntax, theme))
}

/// A text in HTML holds no bracket that could open or close a tag, whatever the text holds.
pub proof fn escaped_text_opens_no_tag(s: Seq<char>)
    ensures
        !escaped(s).contains('<'),
        !escaped(s).contains('>'),
    decreases s.len(),
{
    reveal_strlit("&amp;");
    reveal_strlit("&lt;");
    reveal_strlit("&gt;");
    if s.len() > 0 {
        let front = escaped(s.drop_last());
        let last = escaped_char(s.last());
        escaped_text_opens_no_tag(s.drop_last());
        assert forall|i: int| 0 <= i < escaped(s).len() implies escaped(s)[i] != '<' && escaped(
            s,
        )[i] != '>' by {
            if i < front.len() {
                assert(escaped(s)[i] == front[i]);
                assert(front.contains(front[i]));
            } else {
                assert(escaped(s)[i] == last[i - front.len()]);
            }
        }
    }
}

/// A text without ampersands and angle brackets is written as it is.
pub proof fn harmless_text_is_kept(s: Seq<char>)
    requires
        forall|i: int|
            0 <= i < s.len() ==> #[trigger] s[i] != '&' && s[i] != '<' && s[i] != '>',
    ensures
        escaped(s) == s,
    decreases s.len(),
{
    if s.len() > 0 {
        assert forall|i: int| 0 <= i < s.drop_last().len() implies #[trigger] s.drop_last()[i]
            != '&' && s.drop_last()[i] != '<' && s.drop_last()[i] != '>' by {
            assert(s.drop_last()[i] == s[i]);
        }
        harmless_text_is_kept(s.drop_last());
        assert(s.drop_last() + seq![s.last()] =~= s);
    }
    assert(escaped(s) =~= s);
}

/// Whether a caller gets the form for a new paste: one who may create pastes, and one who could
/// after signing in.
pub open spec fn gets_paste_form(create_paste: ActionRule, role: Option<Role>) -> bool {
    permits(create_paste, role) || (role is None && create_paste != ActionRule::Anonymous
        && create_paste != ActionRule::Disabled)
}

/// Turns a caller down who is not to get the form for a new paste.
pub fn new_paste(settings: &RuntimeSettings, user: Option<&User>) -> (r: Result<(), AppError>)
    ensures
        seen(r) == if gets_paste_form(settings.policy.create_paste, role_of(user)) {
            Ok::<(), ErrorView>(())
        } else {
            Err(ErrorView::Forbidden)
        },
{
    if !policy::can_create_paste(settings, user) {
        let account_required: bool = user.is_none() && settings.policy.create_paste
            != ActionRule::Anonymous && settings.policy.create_paste != ActionRule::Disabled;
        if !account_required {
            return Err(AppError::Forbidden);
        }
    }
    Ok(())
}

/// What becomes of a caller who wants to create a paste.
pub open spec fn paste_check(settings: &RuntimeSettings, role: Option<Role>) -> Result<
    (),
    ErrorView,
> {
    if permits(settings.policy.create_paste, role) {
        Ok(())
    } else {
        Err(ErrorView::Forbidden)
    }
}

/// Turns a caller down who may not create pastes.
pub fn authorize_paste(settings: &RuntimeSettings, user: Option<&User>) -> (r: Result<(), AppError>)
    ensures
        seen(r) == paste_check(settings, role_of(user)),
{
    if policy::can_create_paste(settings, user) {
        Ok(())
    } else {
        Err(AppError::Forbidden)
    }
}

/// What there is under the identifier of a paste.
pub enum PasteLookup {
    /// A paste that is there to be seen.
    Active(Paste),
    /// A paste that is no longer there to be seen.
    TakenDown(Paste),
    /// Nothing.
    Missing,
}

/// What a request for a paste is answered with.
#[derive(Debug)]
pub enum PasteAction {
    /// The paste, with whether the caller may edit it.
    Show { can_edit: bool },
    /// A page that says in which state the paste is.
    Unavailable(String),
}

/// What a request for a paste is answered with, with its text as a sequence of characters.
pub enum PasteActionView {
    Show { can_edit: bool },
    Unavailable(Seq<char>),
}

impl View for PasteAction {
    type V = PasteActionView;

    open spec fn view(&self) -> PasteActionView {
        match self {
            PasteAction::Show { can_edit } => PasteActionView::Show { can_edit: *can_edit },
            PasteAction::Unavailable(state) => PasteActionView::Unavailable(state@),
        }
    }
}

/// An answer or an error, each by its view.
pub open spec fn seen_action(r: Result<PasteAction, AppError>) -> Result<
    PasteActionView,
    ErrorView,
> {
    match r {
        Ok(action) => Ok(action@),
        Err(e) => Err(e@),
    }
}

/// Whether a caller may see a paste.
pub open spec fn may_view_paste(
    settings: &RuntimeSettings,
    user: Option<&User>,
    paste: &Paste,
) -> bool {
    may_view(
        settings.policy.view_item,
        caller_of(user),
        opt_string_view(paste.owner_user_id),
        paste.visibility@,
    )
}

/// Whether a caller may edit a paste.
pub open spec fn may_edit(
    paste_editing: bool,
    user: Option<(Seq<char>, Role)>,
    owner: Option<Seq<char>>,
) -> bool {
    paste_editing && match user {
        Some((id, role)) => role.rank() >= Role::Admin.rank() || owner == Some(id),
        None => false,
    }
}

/// Whether a caller may edit a paste: its owner and administrators, where pastes can be edited.
pub fn can_edit_paste(settings: &RuntimeSettings, user: Option<&User>, paste: &Paste) -> (r: bool)
    ensures
        r == may_edit(
            settings.features.paste_editing,
            caller_of(user),
            opt_string_view(paste.owner_user_id),
        ),
{
    if !settings.features.paste_editing {
        return false;
    }
    let user: &User = match user {
        Some(user) => user,
        None => {
            return false;
        },
    };
    if user.role.at_least(Role::Admin) {
        return true;
    }
    match &paste.owner_user_id {
        Some(owner) => same(owner.as_str(), user.id.as_str()),
        None => false,
    }
}

/// What a request for a paste is answered with.
pub open spec fn paste_answer(
    settings: &RuntimeSettings,
    user: Option<&User>,
    lookup: PasteLookup,
) -> Result<PasteActionView, ErrorView> {
    match lookup {
        PasteLookup::Missing => Err(ErrorView::NotFound),
        PasteLookup::TakenDown(paste) => Ok(PasteActionView::Unavailable(paste.state@)),
        PasteLookup::Active(paste) => if may_view_paste(settings, user, &paste) {
            Ok(
                PasteActionView::Show {
                    can_edit: may_edit(
                        settings.features.paste_editing,
                        caller_of(user),
                        opt_string_view(paste.owner_user_id),
                    ),
                },
            )
        } else {
            Err(ErrorView::Forbidden)
        },
    }
}

/// What a request for a paste is answered with.
pub fn show_paste(settings: &RuntimeSettings, user: Option<&User>, lookup: &PasteLookup) -> (r: Result<
    PasteAction,
    AppError,
>)
    ensures
        seen_action(r) == paste_answer(settings, user, *lookup),
{
    match lookup {
        PasteLookup::Missing => Err(AppError::NotFound),
        PasteLookup::TakenDown(paste) => Ok(
            PasteAction::Unavailable(paste.state.as_str().to_owned()),
        ),
        PasteLookup::Active(paste) => match authorize_item_view(
            settings,
            user,
            opt_str(&paste.owner_user_id),
            paste.visibility.as_str(),
        ) {
            Ok(_) => Ok(PasteAction::Show { can_edit: can_edit_paste(settings, user, paste) }),
            Err(e) => Err(e),
        },
    }
}

/// The link to a paste.
pub fn paste_url(server: &ServerConfig, id: &str) -> (r: String)
    ensures
        r@ == app_base(server.public_base_url@) + "/p/"@ + id@,
{
    let mut url: String = app_base_url(server);
    url.append("/p/");
    url.append(id);
    url
}

/// The link to the text of a paste.
pub fn raw_paste_url(server: &ServerConfig, id: &str) -> (r: String)
    ensures
        r@ == app_base(server.public_base_url@) + "/p/"@ + id@ + "/raw"@,
{
    let mut url: String = paste_url(server, id);
    url.append("/raw");
    url
}

/// What becomes of a request to edit a paste.
pub open spec fn edit_check(
    settings: &RuntimeSettings,
    user: Option<&User>,
    paste: Option<&Paste>,
) -> Result<(), ErrorView> {
    match (user, paste) {
        (None, _) => Err(ErrorView::Unauthorized),
        (Some(_), None) => Err(ErrorView::NotFound),
        (Some(_), Some(paste)) => if may_edit(
            settings.features.paste_editing,
            caller_of(user),
            opt_string_view(paste.owner_user_id),
        ) {
            Ok(())
        } else {
            Err(ErrorView::Forbidden)
        },
    }
}

/// Turns a caller down who is not to get the form for editing a paste.
pub fn edit_paste_form(settings: &RuntimeSettings, user: Option<&User>, paste: Option<&Paste>) -> (r:
    Result<(), AppError>)
    ensures
        seen(r) == edit_check(settings, user, paste),
{
    if user.is_none() {
        return Err(AppError::Unauthorized);
    }
    match paste {
        None => Err(AppError::NotFound),
        Some(paste) => if can_edit_paste(settings, user, paste) {
            Ok(())
        } else {
            Err(AppError::Forbidden)
        },
    }
}

/// What the form for editing a paste holds.
#[derive(Debug, Clone)]
pub struct PasteEditForm {
    pub title: Option<String>,
    pub syntax: Option<String>,
    pub content: String,
    pub csrf_token: Option<String>,
}

/// What becomes of an edit before the paste is looked up: who is not signed in, whose form has no
/// good token and whose text is too long is turned down, in this order.
pub open spec fn edit_gate(
    settings: &RuntimeSettings,
    signed_in: bool,
    cookie: Option<Seq<char>>,
    submitted: Option<Seq<char>>,
    content: Seq<char>,
) -> Result<(), ErrorView> {
    if !signed_in {
        Err(ErrorView::Unauthorized)
    } else if csrf_check(cookie, submitted) is Err {
        csrf_check(cookie, submitted)
    } else if encode_utf8(content).len() > settings.limits.max_paste_bytes {
        Err(ErrorView::PayloadTooLarge)
    } else {
        Ok(())
    }
}

/// Turns an edit down before the paste is looked up.
pub fn update_paste_gate(
    settings: &RuntimeSettings,
    user: Option<&User>,
    csrf_cookie: Option<&str>,
    form: &PasteEditForm,
) -> (r: Result<(), AppError>)
    ensures
        seen(r) == edit_gate(
            settings,
            user is Some,
            opt_view(csrf_cookie),
            opt_string_view(form.csrf_token),
            form.content@,
        ),
{
    if user.is_none() {
        return Err(AppError::Unauthorized);
    }
    if let Err(e) = validate_csrf(csrf_cookie, opt_str(&form.csrf_token)) {
        return Err(e);
    }
    let length: usize = form.content.as_str().as_bytes().len();
    if length as i128 > settings.limits.max_paste_bytes as i128 {
        return Err(AppError::PayloadTooLarge);
    }
    Ok(())
}

/// What becomes of an edit: the title that the paste gets, where the edit is accepted.
pub open spec fn edit_answer(
    settings: &RuntimeSettings,
    user: Option<&User>,
    cookie: Option<Seq<char>>,
    form: &PasteEditForm,
    paste: Option<&Paste>,
) -> Result<Option<Seq<char>>, ErrorView> {
    let gate = edit_gate(
        settings,
        user is Some,
        cookie,
        opt_string_view(form.csrf_token),
        form.content@,
    );
    match (gate, edit_check(settings, user, paste)) {
        (Err(e), _) => Err(e),
        (Ok(_), Err(e)) => Err(e),
        (Ok(_), Ok(_)) => Ok(present(opt_string_view(form.title))),
    }
}

/// An optional text, or an error, each by its view.
pub open spec fn seen_title(r: Result<Option<String>, AppError>) -> Result<
    Option<Seq<char>>,
    ErrorView,
> {
    match r {
        Ok(title) => Ok(opt_string_view(title)),
        Err(e) => Err(e@),
    }
}

/// Decides on an edit, and gives the title that the paste gets: the one in the form without the
/// white space around it, or none where that is blank.
pub fn update_paste(
    settings: &RuntimeSettings,
    user: Option<&User>,
    csrf_cookie: Option<&str>,
    form: &PasteEditForm,
    paste: Option<&Paste>,
) -> (r: Result<Option<String>, AppError>)
    ensures
        seen_title(r) == edit_answer(settings, user, opt_view(csrf_cookie), form, paste),
{
    if let Err(e) = update_paste_gate(settings, user, csrf_cookie, form) {
        return Err(e);
    }
    if let Err(e) = edit_paste_form(settings, user, paste) {
        return Err(e);
    }
    Ok(opt_owned(trim_present(opt_str(&form.title))))
}

/// Where a caller is sent after an edit.
pub fn edited_paste_path(id: &str) -> (r: String)
    ensures
        r@ == "/p/"@ + id@,
{
    let mut path: String = "/p/".to_owned();
    path.append(id);
    path
}

/// The status and the headers of a response, or an error, each by its view.
pub open spec fn seen_head(r: Result<ResponseHead, AppError>) -> Result<
    (u16, Map<Seq<char>, Seq<Seq<u8>>>),
    ErrorView,
> {
    match r {
        Ok(head) => Ok((head.status, head@)),
        Err(e) => Err(e@),
    }
}

/// What a request for the text of a paste is answered with.
pub open spec fn raw_paste_answer(
    settings: &RuntimeSettings,
    user: Option<&User>,
    paste: Option<&Paste>,
) -> Result<(u16, Map<Seq<char>, Seq<Seq<u8>>>), ErrorView> {
    match paste {
        None => Err(ErrorView::NotFound),
        Some(paste) => if may_view_paste(settings, user, paste) {
            Ok(
                (
                    200,
                    with_header(no_headers(), "content-type"@, "text/plain; charset=utf-8"@),
                ),
            )
        } else {
            Err(ErrorView::Forbidden)
        },
    }
}

/// What a request for the text of a paste is answered with: the text, where the caller may see it.
pub fn raw_paste(settings: &RuntimeSettings, user: Option<&User>, paste: Option<&Paste>) -> (r: Result<
    ResponseHead,
    AppError,
>)
    ensures
        seen_head(r) == raw_paste_answer(settings, user, paste),
{
    let paste: &Paste = match paste {
        Some(paste) => paste,
        None => {
            return Err(AppError::NotFound);
        },
    };
    if let Err(e) = authorize_item_view(
        settings,
        user,
        opt_str(&paste.owner_user_id),
        paste.visibility.as_str(),
    ) {
        return Err(e);
    }
    proof {
        reveal_strlit("text/plain; charset=utf-8");
    }
    let mut head: ResponseHead = ResponseHead::new(200);
    assert(is_visible_chars("text/plain; charset=utf-8"@));
    head.set_visible("content-type", "text/plain; charset=utf-8");
    Ok(head)
}

/// An edit is accepted only from a caller whom the form for editing would have been shown to.
pub proof fn only_who_may_edit_changes_a_paste(
    settings: &RuntimeSettings,
    user: Option<&User>,
    cookie: Option<Seq<char>>,
    form: &PasteEditForm,
    paste: Option<&Paste>,
)
    requires
        edit_answer(settings, user, cookie, form, paste) is Ok,
    ensures
        edit_check(settings, user, paste) is Ok,
        settings.features.paste_editing,
        encode_utf8(form.content@).len() <= settings.limits.max_paste_bytes,
{
}

/// Who may edit a paste that is private may see it.
pub proof fn who_may_edit_a_private_paste_may_see_it(
    paste_editing: bool,
    view_item: ActionRule,
    user: Option<(Seq<char>, Role)>,
    owner: Option<Seq<char>>,
)
    requires
        may_edit(paste_editing, user, owner),
    ensures
        may_view(view_item, user, owner, "private"@),
{
}

/// Pastes follow the rule for pastes, whatever the other rules say.
pub proof fn pastes_follow_their_own_rule(settings: &RuntimeSettings, role: Role)
    ensures
        settings.policy.create_paste == ActionRule::Disabled ==> paste_check(settings, Some(role))
            is Err && paste_check(settings, None) is Err,
        settings.policy.create_paste == ActionRule::Anonymous ==> paste_check(settings, Some(role))
            is Ok && paste_check(settings, None) is Ok,
        settings.policy.create_paste == ActionRule::Authenticated ==> paste_check(
            settings,
            Some(role),
        ) is Ok && paste_check(settings, None) is Err,
        settings.policy.create_paste == ActionRule::Moderator ==> (paste_check(settings, Some(role))
            is Ok <==> role != Role::User),
        settings.policy.create_paste == ActionRule::Admin ==> (paste_check(settings, Some(role))
            is Ok <==> role == Role::Admin || role == Role::Owner),
        settings.policy.create_paste == ActionRule::Owner ==> (paste_check(settings, Some(role))
            is Ok <==> role == Role::Owner),
        paste_check(settings, Some(role)) matches Err(e) ==> e == ErrorView::Forbidden,
{
}

/// The form for a new paste is shown to whoever may create one, and to an anonymous caller who could
/// after signing in with some account; to no one else.
pub proof fn the_form_is_shown_to_who_could_use_it(create_paste: ActionRule, role: Role)
    ensures
        gets_paste_form(create_paste, Some(role)) <==> permits(create_paste, Some(role)),
        gets_paste_form(create_paste, None) <==> permits(create_paste, None) || permits(
            create_paste,
            Some(Role::Owner),
        ),
{
}

/// Pastes are edited by their owners and by administrators, where they can be edited at all, and by
/// nobody else; a paste that nobody owns is edited by administrators alone.
pub proof fn pastes_are_edited_by_owners_and_administrators(
    id: Seq<char>,
    role: Role,
    owner: Option<Seq<char>>,
)
    ensures
        may_edit(true, Some((id, role)), owner) <==> owner == Some(id) || role == Role::Admin
            || role == Role::Owner,
        !may_edit(true, None, owner),
        !may_edit(false, Some((id, role)), owner),
        !may_edit(false, None, owner),
{
}

/// A paste is shown to every caller who may see it, with the means to edit it exactly where the
/// caller may; others are turned down. One that was taken down tells its state, and where there is
/// none there is nothing to see.
pub proof fn pastes_are_shown_to_who_may_see_them(
    settings: &RuntimeSettings,
    user: Option<&User>,
    paste: Paste,
)
    ensures
        ({
            let shown = paste_answer(settings, user, PasteLookup::Active(paste));
            let text = raw_paste_answer(settings, user, Some(&paste));
            let owner = opt_string_view(paste.owner_user_id);
            let may = may_view(
                settings.policy.view_item,
                caller_of(user),
                owner,
                paste.visibility@,
            );
            &&& may ==> (shown matches Ok(PasteActionView::Show { can_edit }) && (can_edit
                <==> settings.features.paste_editing && (user matches Some(user) && (owner == Some(
                user.id@,
            ) || user.role == Role::Admin || user.role == Role::Owner))))
            &&& may ==> (text matches Ok((status, headers)) && status == 200
                && headers["content-type"@] == seq![encode_utf8("text/plain; charset=utf-8"@)])
            &&& !may ==> shown == Err::<PasteActionView, ErrorView>(ErrorView::Forbidden)
            &&& !may ==> text == Err::<(u16, Map<Seq<char>, Seq<Seq<u8>>>), ErrorView>(
                ErrorView::Forbidden,
            )
        }),
        paste_answer(settings, user, PasteLookup::TakenDown(paste)) == Ok::<
            PasteActionView,
            ErrorView,
        >(PasteActionView::Unavailable(paste.state@)),
        paste_answer(settings, user, PasteLookup::Missing) == Err::<PasteActionView, ErrorView>(
            ErrorView::NotFound,
        ),
        raw_paste_answer(settings, user, None) == Err::<
            (u16, Map<Seq<char>, Seq<Seq<u8>>>),
            ErrorView,
        >(ErrorView::NotFound),
{
}

/// An edit is accepted from a signed-in caller who may edit the paste, whose form holds the token of
/// the cookie and whose text is not too long; the paste then gets the title of the form without the
/// white space around it.
pub proof fn edits_of_who_may_edit_are_accepted(
    settings: &RuntimeSettings,
    user: &User,
    token: Seq<char>,
    form: &PasteEditForm,
    paste: &Paste,
)
    requires
        settings.features.paste_editing,
        opt_string_view(paste.owner_user_id) == Some(user.id@) || user.role == Role::Admin
            || user.role == Role::Owner,
        token.len() > 0,
        form.csrf_token matches Some(submitted) && trimmed(submitted@) == token,
        encode_utf8(form.content@).len() <= settings.limits.max_paste_bytes,
    ensures
        ({
            let answer = edit_answer(settings, Some(user), Some(token), form, Some(paste));
            &&& form.title is None ==> answer == Ok::<Option<Seq<char>>, ErrorView>(None)
            &&& form.title matches Some(title) ==> {
                &&& (exists|i: int|
                    0 <= i < title@.len() && !is_white_space(#[trigger] title@[i])) ==> answer
                    == Ok::<Option<Seq<char>>, ErrorView>(Some(trimmed(title@)))
                &&& (forall|i: int|
                    0 <= i < title@.len() ==> is_white_space(#[trigger] title@[i])) ==> answer
                    == Ok::<Option<Seq<char>>, ErrorView>(None)
            }
        }),
{
    if let Some(title) = form.title {
        only_blank_texts_are_trimmed_away(title@);
    }
}

/// Why an edit is turned down: nobody is signed in, the form is another site's, the text is too long,
/// there is no such paste, or the caller may not edit it, the first of these that holds.
pub proof fn edits_are_turned_down_in_order(
    settings: &RuntimeSettings,
    user: &User,
    cookie: Option<Seq<char>>,
    form: &PasteEditForm,
    paste: Option<&Paste>,
)
    ensures
        edit_answer(settings, None, cookie, form, paste) == Err::<Option<Seq<char>>, ErrorView>(
            ErrorView::Unauthorized,
        ),
        ({
            let answer = edit_answer(settings, Some(user), cookie, form, paste);
            let csrf = csrf_check(cookie, opt_string_view(form.csrf_token));
            let long = encode_utf8(form.content@).len() > settings.limits.max_paste_bytes;
            &&& csrf matches Err(e) ==> answer == Err::<Option<Seq<char>>, ErrorView>(e)
            &&& csrf is Ok && long ==> answer == Err::<Option<Seq<char>>, ErrorView>(
                ErrorView::PayloadTooLarge,
            )
            &&& csrf is Ok && !long && paste is None ==> answer == Err::<
                Option<Seq<char>>,
                ErrorView,
            >(ErrorView::NotFound)
            &&& csrf is Ok && !long && (paste matches Some(paste) && opt_string_view(
                paste.owner_user_id,
            ) != Some(user.id@)) && user.role == Role::User ==> answer == Err::<
                Option<Seq<char>>,
                ErrorView,
            >(ErrorView::Forbidden)
        }),
{
}

/// A paste without a syntax, or with a blank one, is shown as a block of its own text. One with a
/// syntax is shown as highlighting renders it, in the syntax that its token finds or else as plain
/// text, and as a block of its own text where highlighting fails.
pub proof fn pastes_are_shown_in_their_syntax(
    content: Seq<char>,
    token: Seq<char>,
    blank: Seq<char>,
    theme: syntect::highlighting::Theme,
)
    requires
        exists|i: int| 0 <= i < token.len() && !is_white_space(#[trigger] token[i]),
        forall|i: int| 0 <= i < blank.len() ==> is_white_space(#[trigger] blank[i]),
        bundled_theme("base16-ocean.dark"@) == Some(theme),
    ensures
        ({
            let block = "<pre class=\"paste-body\"><code>"@ + escaped(content)
                + "</code></pre>"@;
            let syntax = match token_syntax(token) {
                Some(syntax) => syntax,
                None => named_syntax("Plain Text"@)->0,
            };
            &&& rendered_paste(content, None) == block
            &&& rendered_paste(content, Some(blank)) == block
            &&& highlighted_html(content, syntax, theme) matches Some(html) ==> rendered_paste(
                content,
                Some(token),
            ) == html
            &&& highlighted_html(content, syntax, theme) is None ==> rendered_paste(
                content,
                Some(token),
            ) == block
        }),
{
    only_blank_texts_are_trimmed_away(token);
    only_blank_texts_are_trimmed_away(blank);
}

} // verus!
