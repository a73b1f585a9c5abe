//! The example page: a fixed site composed from the element combinators,
//! whose exact rendered text is part of each element's contract.

use vstd::prelude::*;
use crate::attributes::GlobalAttributes;
use crate::html::{HTMLElement, tag, tag_spec};

verus! {

/// The whole page: a head and a body inside an `html` element.
pub struct Site {}

/// The page head: a title and a language tag.
pub struct Head {}

/// The page body: a div with two paragraphs of greeting text.
pub struct Body {}

impl core::default::Default for Site {
    fn default() -> (r: Site)
        ensures
            r == (Site {  }),
    {
        Site {  }
    }
}

impl core::default::Default for Head {
    fn default() -> (r: Head)
        ensures
            r == (Head {  }),
    {
        Head {  }
    }
}

impl core::default::Default for Body {
    fn default() -> (r: Body)
        ensures
            r == (Body {  }),
    {
        Body {  }
    }
}

pub open spec fn site_head_view() -> Seq<char> {
    tag_spec(
        "head"@,
        Seq::empty(),
        tag_spec("title"@, Seq::empty(), "Example Page"@) + seq!['\n'] + tag_spec(
            "lang"@,
            Seq::empty(),
            "en-gb"@,
        ),
    )
}

pub open spec fn site_body_view() -> Seq<char> {
    tag_spec(
        "body"@,
        Seq::empty(),
        tag_spec(
            "div"@,
            Seq::empty(),
            tag_spec("p"@, Seq::empty(), "Hi!"@) + seq!['\n'] + tag_spec(
                "p"@,
                Seq::empty(),
                "This is a test page!"@,
            ),
        ),
    )
}

pub open spec fn site_view() -> Seq<char> {
    tag_spec("html"@, Seq::empty(), site_head_view() + seq!['\n'] + site_body_view())
}

impl HTMLElement for Head {
    open spec fn render_view(&self) -> Seq<char> {
        site_head_view()
    }

    fn render(&self) -> (r: String) {
        let title_tag = tag(GlobalAttributes::Title.as_str(), "", "Example Page");
        let lang_tag = tag(GlobalAttributes::Lang.as_str(), "", "en-gb");
        let mut body = title_tag;
        body.append("\n");
        body.append(lang_tag.as_str());
        let out = tag("head", "", body.as_str());
        proof {
            reveal_strlit("");
            reveal_strlit("\n");
            assert(""@ =~= Seq::<char>::empty());
            assert("\n"@ =~= seq!['\n']);
            assert(out@ =~= site_head_view());
        }
        out
    }
}

impl HTMLElement for Body {
    open spec fn render_view(&self) -> Seq<char> {
        site_body_view()
    }

    fn render(&self) -> (r: String) {
        let p_one = tag("p", "", "Hi!");
        let p_two = tag("p", "", "This is a test page!");
        let mut div_body = p_one;
        div_body.append("\n");
        div_body.append(p_two.as_str());
        let div_tag = tag("div", "", div_body.as_str());
        let out = tag("body", "", div_tag.as_str());
        proof {
            reveal_strlit("");
            reveal_strlit("\n");
            assert(""@ =~= Seq::<char>::empty());
            assert("\n"@ =~= seq!['\n']);
            assert(out@ =~= site_body_view());
        }
        out
    }
}

impl HTMLElement for Site {
    open spec fn render_view(&self) -> Seq<char> {
        site_view()
    }

    fn render(&self) -> (r: String) {
        let head = Head::default();
        let body_elem = Body::default();
        let mut inner = head.render();
        inner.append("\n");
        let body_text = body_elem.render();
        inner.append(body_text.as_str());
        let out = tag("html", "", inner.as_str());
        proof {
            reveal_strlit("");
            reveal_strlit("\n");
            assert(""@ =~= Seq::<char>::empty());
            assert("\n"@ =~= seq!['\n']);
            assert(out@ =~= site_view());
        }
        out
    }
}

} // verus!
