//! Email delivery: the sender address and the HTML page a digest is mailed
//! as.
use vstd::prelude::*;

use crate::config::EmailConfig;
use crate::text::{chars_of, contains_char, trim_string, trim_ws};

verus! {

broadcast use vstd::string::group_string_axioms;

/// The email channel, with the SMTP settings it sends with.
#[derive(Debug, Clone)]
pub struct EmailChannel {
    pub config: EmailConfig,
}

/// The HTML that pulldown-cmark renders for the markdown `md` with its
/// default options.
pub uninterp spec fn markdown_html(md: Seq<char>) -> Seq<char>;

/// Renders markdown as HTML: `pulldown_cmark::Parser::new` over `md`, fed to
/// `pulldown_cmark::html::push_html` into an empty string. The result is
/// claimed to be `markdown_html(md)`, a function of `md` alone; nothing else
/// is claimed of it.
#[verifier::external_body]
fn markdown_to_html(md: &str) -> (html: String)
    ensures
        html@ == markdown_html(md@),
{
    let parser = pulldown_cmark::Parser::new(md);
    let mut out = String::new();
    pulldown_cmark::html::push_html(&mut out, parser);
    out
}

/// The page head and style sheet every digest email starts with.
pub const EMAIL_PAGE_HEAD: &'static str = "<html><head><style>
body { font-family: -apple-system, BlinkMacSystemFont, 'Segoe UI', Roboto, sans-serif; line-height: 1.6; color: #333; max-width: 800px; margin: 0 auto; padding: 20px; }
h1 { color: #1a1a1a; border-bottom: 2px solid #eee; padding-bottom: 10px; }
h2, h3 { color: #2c3e50; }
a { color: #3498db; text-decoration: none; }
a:hover { text-decoration: underline; }
ul, ol { padding-left: 20px; }
</style></head><body><h1>";

/// The email page for a digest: the styled head, the title as the `h1`,
/// then the rendered content.
pub open spec fn email_page(title: Seq<char>, content: Seq<char>) -> Seq<char> {
    EMAIL_PAGE_HEAD@ + title + "</h1>"@ + markdown_html(content) + "</body></html>"@
}

/// The sender address: the trimmed `from` when it holds an `@`; the SMTP
/// user name when `from` is blank; otherwise `from` as the display name,
/// `{from} <{smtp_username}>`.
pub open spec fn resolved_from(from: Seq<char>, smtp_username: Seq<char>) -> Seq<char> {
    let f = trim_ws(from);
    if f.len() == 0 {
        smtp_username
    } else if f.contains('@') {
        f
    } else {
        f + " <"@ + smtp_username + ">"@
    }
}

impl EmailChannel {
    pub fn new(config: EmailConfig) -> (c: EmailChannel)
        ensures
            c.config == config,
    {
        EmailChannel { config }
    }

    /// The "from" address for `config` (see `resolved_from`).
    pub fn resolve_from_static(config: &EmailConfig) -> (r: String)
        ensures
            r@ == resolved_from(config.from@, config.smtp_username@),
    {
        let from = trim_string(config.from.as_str());
        if from.as_str().is_empty() {
            config.smtp_username.clone()
        } else {
            let cs = chars_of(from.as_str());
            if contains_char(&cs, '@') {
                from
            } else {
                let mut r = from;
                r.append(" <");
                r.append(config.smtp_username.as_str());
                r.append(">");
                r
            }
        }
    }

    /// The "from" address this channel sends with.
    pub fn resolve_from(&self) -> (r: String)
        ensures
            r@ == resolved_from(self.config.from@, self.config.smtp_username@),
    {
        Self::resolve_from_static(&self.config)
    }

    /// The HTML page mailed for a digest with this title and markdown
    /// content (see `email_page`).
    pub fn html_page(title: &str, content: &str) -> (page: String)
        ensures
            page@ == email_page(title@, content@),
    {
        let body = markdown_to_html(content);
        Self::page_with_body(title, body.as_str())
    }

    /// The HTML page around an already rendered body: the styled head, the
    /// title as the `h1`, then the body.
    pub fn page_with_body(title: &str, body_html: &str) -> (page: String)
        ensures
            page@ == EMAIL_PAGE_HEAD@ + title@ + "</h1>"@ + body_html@ + "</body></html>"@,
    {
        let mut page = String::from_str(EMAIL_PAGE_HEAD);
        page.append(title);
        page.append("</h1>");
        page.append(body_html);
        page.append("</body></html>");
        page
    }
}

} // verus!
