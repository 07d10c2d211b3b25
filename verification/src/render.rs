//! Rendering: substitute a selected quote into the fixed page template.
//! The five placeholders are replaced in a set order, with the free-text
//! fields sanitized first; the link and the "H:M" time label go in as
//! they are.

use vstd::prelude::*;

use crate::index::AppState;
use crate::model::ClockEntry;
use crate::model::QuoteView;
use crate::text::clean_string;
use crate::text::cleaned;
use crate::text::time_label;
use crate::text::time_string;

verus! {

/// What `str::replace` returns for `(s, from, to)`: the occurrences of
/// `from` in `s` replaced by `to`. A function of the three texts alone.
pub uninterp spec fn replaced(s: Seq<char>, from: Seq<char>, to: Seq<char>) -> Seq<char>;

/// Relies on `str::replace`: it replaces every occurrence of the pattern
/// with the replacement text, a pure function of its three arguments.
#[verifier::external_body]
fn replace_in(s: &str, from: &str, to: &str) -> (r: String)
    ensures
        r@ == replaced(s@, from@, to@),
{
    s.replace(from, to)
}

/// The rendered page for quote `e` at the requested time: the placeholders
/// substituted in the order author, title, link, paragraph, time, with the
/// author, title and body text sanitized first.
pub open spec fn rendered(t: Seq<char>, e: QuoteView, h: u32, m: u32) -> Seq<char> {
    replaced(
        replaced(
            replaced(
                replaced(
                    replaced(t, "{{author}}"@, cleaned(e.author)),
                    "{{title}}"@,
                    cleaned(e.title),
                ),
                "{{link}}"@,
                e.link,
            ),
            "{{paragraph}}"@,
            cleaned(e.text),
        ),
        "{{time}}"@,
        time_label(h, m),
    )
}

/// Substitute one quote into the template, sanitizing its free-text
/// fields and stamping the requested time.
pub fn render_entry(template: &str, e: &ClockEntry, hour: u32, minute: u32) -> (r: String)
    ensures
        r@ == rendered(template@, e@, hour, minute),
{
    let author = clean_string(&e.author);
    let html = replace_in(template, "{{author}}", author.as_str());
    let title = clean_string(&e.title);
    let html = replace_in(html.as_str(), "{{title}}", title.as_str());
    let html = replace_in(html.as_str(), "{{link}}", e.link.as_str());
    let text = clean_string(&e.text);
    let html = replace_in(html.as_str(), "{{paragraph}}", text.as_str());
    let time = time_string(hour, minute);
    let html = replace_in(html.as_str(), "{{time}}", time.as_str());
    html
}

impl AppState {
    /// Render the page for an arbitrary hour and minute against the given
    /// template. `None` is the "no quote available for this time"
    /// condition, exactly when the lookup finds the empty sentinel; a
    /// singleton bucket renders its one quote, a larger bucket one of its
    /// own quotes.
    pub fn get_html(&self, template: &str, hour: u32, minute: u32) -> (r: Option<String>)
        requires
            self.wf(),
        ensures
            r is Some <==> self.has_data(hour, minute),
            r matches Some(html) ==> exists|e: QuoteView|
                #[trigger] self.selects(hour, minute, e) && html@ == rendered(
                    template@,
                    e,
                    hour,
                    minute,
                ),
    {
        match self.get_entry(hour, minute) {
            None => None,
            Some(e) => {
                let html = render_entry(template, &e, hour, minute);
                proof {
                    assert(self.selects(hour, minute, e@) && html@ == rendered(
                        template@,
                        e@,
                        hour,
                        minute,
                    ));
                }
                Some(html)
            },
        }
    }
}

} // verus!
