//! Site-wide settings handed to the renderer: the base URL, an optional
//! social link, and an optional ordered list of highlight links.
//!
//! All URL joining in the generated pages assumes the base URL ends with a
//! separator, so it is normalized before being embedded anywhere.

use vstd::prelude::*;

verus! {

/// The ghost shape of one highlight link.
#[verifier::ext_equal]
pub struct LinkView {
    pub title: Seq<char>,
    pub url: Seq<char>,
}

/// One highlight link of the index page.
#[derive(Debug)]
pub struct Link {
    pub title: String,
    pub url: String,
}

impl View for Link {
    type V = LinkView;

    open spec fn view(&self) -> LinkView {
        LinkView { title: self.title@, url: self.url@ }
    }
}

impl DeepView for Link {
    type V = LinkView;

    open spec fn deep_view(&self) -> LinkView {
        self@
    }
}

/// The ghost shape of the settings.
#[verifier::ext_equal]
pub struct ConfigView {
    pub base_url: Seq<char>,
    pub mastodon: Option<Seq<char>>,
    pub top_links: Seq<LinkView>,
}

/// Site-wide settings, already validated by the caller.
#[derive(Debug)]
pub struct Config {
    pub base_url: String,
    pub mastodon: Option<String>,
    pub top_links: Vec<Link>,
}

impl View for Config {
    type V = ConfigView;

    open spec fn view(&self) -> ConfigView {
        ConfigView {
            base_url: self.base_url@,
            mastodon: self.mastodon.deep_view(),
            top_links: self.top_links.deep_view(),
        }
    }
}

impl DeepView for Config {
    type V = ConfigView;

    open spec fn deep_view(&self) -> ConfigView {
        self@
    }
}

impl Link {
    /// Copies the link, preserving its view.
    pub fn duplicate(&self) -> (r: Link)
        ensures
            r@ == self@,
    {
        Link { title: self.title.clone(), url: self.url.clone() }
    }
}

impl Config {
    /// Copies the settings, preserving their view.
    pub fn duplicate(&self) -> (r: Config)
        ensures
            r@ == self@,
    {
        let mastodon = match &self.mastodon {
            Some(m) => Some(m.clone()),
            None => None,
        };
        let mut top_links: Vec<Link> = Vec::new();
        let mut i: usize = 0;
        while i < self.top_links.len()
            invariant
                0 <= i <= self.top_links.len(),
                top_links.deep_view().len() == i,
                forall|j: int|
                    0 <= j < i ==> top_links.deep_view()[j] == self.top_links.deep_view()[j],
            decreases self.top_links.len() - i,
        {
            let ghost before = top_links.deep_view();
            top_links.push(self.top_links[i].duplicate());
            proof {
                assert(top_links.deep_view() =~= before.push(self.top_links@[i as int]@));
            }
            i = i + 1;
        }
        let r = Config { base_url: self.base_url.clone(), mastodon, top_links };
        proof {
            assert(r.top_links.deep_view() =~= self.top_links.deep_view());
            assert(r@ =~= self@);
        }
        r
    }
}

/// A base URL with a terminating separator: unchanged when it already ends
/// with `/`, else with `/` appended.
pub open spec fn normalized_url(u: Seq<char>) -> Seq<char> {
    if u.len() > 0 && u[u.len() - 1] == '/' {
        u
    } else {
        u.push('/')
    }
}

/// Appends the terminating `/` to a base URL that lacks one, so every
/// generated link can assume it.
pub fn normalize_base_url(url: String) -> (r: String)
    ensures
        r@ == normalized_url(url@),
{
    let n = url.as_str().unicode_len();
    if n > 0 && url.as_str().get_char(n - 1) == '/' {
        url
    } else {
        let r = url.concat("/");
        proof {
            reveal_strlit("/");
            assert("/"@ =~= seq!['/']);
            assert(r@ =~= url@.push('/'));
        }
        r
    }
}

} // verus!
