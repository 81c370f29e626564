//! Notification messages: plain builders for the payloads a webhook client
//! sends out.  The delivery itself is outside the library.

use vstd::prelude::*;

verus! {

/// The author block of an embed.
#[derive(Debug, PartialEq)]
pub struct MessageEmbedAuthor {
    pub name: String,
    pub url: Option<String>,
    pub icon_url: Option<String>,
}

impl MessageEmbedAuthor {
    /// An author with the given name and no links.
    pub fn new(name: &str) -> (r: MessageEmbedAuthor)
        ensures
            r.name@ == name@,
            r.url is None,
            r.icon_url is None,
    {
        MessageEmbedAuthor { name: name.to_owned(), url: None, icon_url: None }
    }
}

/// One embed of a message: an optional title, description, link and author.
#[derive(Debug, PartialEq)]
pub struct MessageEmbed {
    pub title: Option<String>,
    pub description: Option<String>,
    pub url: Option<String>,
    pub author: Option<MessageEmbedAuthor>,
}

impl MessageEmbed {
    /// An embed with nothing set.
    pub fn builder() -> (r: MessageEmbed)
        ensures
            r.title is None,
            r.description is None,
            r.url is None,
            r.author is None,
    {
        MessageEmbed { title: None, description: None, url: None, author: None }
    }

    /// Sets the title.
    pub fn with_title(&mut self, title: &str)
        ensures
            final(self).title matches Some(t) && t@ == title@,
            final(self).description == old(self).description,
            final(self).url == old(self).url,
            final(self).author == old(self).author,
    {
        self.title = Some(title.to_owned());
    }

    /// The embed with the title set.
    pub fn title(self, title: &str) -> (r: MessageEmbed)
        ensures
            r.title matches Some(t) && t@ == title@,
            r.description == self.description,
            r.url == self.url,
            r.author == self.author,
    {
        let mut e = self;
        e.with_title(title);
        e
    }

    /// Sets the description.
    pub fn with_description(&mut self, description: &str)
        ensures
            final(self).description matches Some(t) && t@ == description@,
            final(self).title == old(self).title,
            final(self).url == old(self).url,
            final(self).author == old(self).author,
    {
        self.description = Some(description.to_owned());
    }

    /// The embed with the description set.
    pub fn description(self, description: &str) -> (r: MessageEmbed)
        ensures
            r.description matches Some(t) && t@ == description@,
            r.title == self.title,
            r.url == self.url,
            r.author == self.author,
    {
        let mut e = self;
        e.with_description(description);
        e
    }

    /// Sets the link.
    pub fn with_url(&mut self, url: &str)
        ensures
            final(self).url matches Some(t) && t@ == url@,
            final(self).title == old(self).title,
            final(self).description == old(self).description,
            final(self).author == old(self).author,
    {
        self.url = Some(url.to_owned());
    }

    /// The embed with the link set.
    pub fn url(self, url: &str) -> (r: MessageEmbed)
        ensures
            r.url matches Some(t) && t@ == url@,
            r.title == self.title,
            r.description == self.description,
            r.author == self.author,
    {
        let mut e = self;
        e.with_url(url);
        e
    }

    /// Sets the author block.
    pub fn with_author(&mut self, author: MessageEmbedAuthor)
        ensures
            final(self).author == Some(author),
            final(self).title == old(self).title,
            final(self).description == old(self).description,
            final(self).url == old(self).url,
    {
        self.author = Some(author);
    }

    /// The embed with the author block set.
    pub fn author(self, author: MessageEmbedAuthor) -> (r: MessageEmbed)
        ensures
            r.author == Some(author),
            r.title == self.title,
            r.description == self.description,
            r.url == self.url,
    {
        let mut e = self;
        e.with_author(author);
        e
    }

    /// Sets the link, prefixing the base address when the given text
    /// is not already a full address.
    pub fn with_reddit_link(&mut self, maybe_full_url: &str)
        ensures
            final(self).url is Some,
            final(self).title == old(self).title,
            final(self).description == old(self).description,
            final(self).author == old(self).author,
            ({
                let u = final(self).url->0@;
                if maybe_full_url@.len() >= 4 && maybe_full_url@.subrange(0, 4) == ("http")@ {
                    u == maybe_full_url@
                } else {
                    u == ("https://reddit.com")@ + maybe_full_url@
                }
            }),
    {
        let n = maybe_full_url.unicode_len();
        let starts_http = n >= 4 && {
            let prefix = maybe_full_url.substring_char(0, 4);
            crate::strutil::str_eq(prefix, "http")
        };
        if starts_http {
            self.url = Some(maybe_full_url.to_owned());
        } else {
            let mut full = ("https://reddit.com").to_owned();
            full.append(maybe_full_url);
            self.url = Some(full);
        }
    }
}

/// A webhook message: optional text content plus embeds.
#[derive(Debug, PartialEq)]
pub struct Message {
    pub content: Option<String>,
    pub embeds: Vec<MessageEmbed>,
}

impl Message {
    /// A message with nothing set.
    pub fn builder() -> (r: Message)
        ensures
            r.content is None,
            r.embeds@ == Seq::<MessageEmbed>::empty(),
    {
        Message { content: None, embeds: Vec::new() }
    }

    /// Sets the text content.
    pub fn with_content(&mut self, content: &str)
        ensures
            final(self).content matches Some(t) && t@ == content@,
            final(self).embeds == old(self).embeds,
    {
        self.content = Some(content.to_owned());
    }

    /// The message with the text content set.
    pub fn content(self, content: &str) -> (r: Message)
        ensures
            r.content matches Some(t) && t@ == content@,
            r.embeds == self.embeds,
    {
        let mut m = self;
        m.with_content(content);
        m
    }

    /// Appends an embed.
    pub fn with_embed(&mut self, embed: MessageEmbed)
        ensures
            final(self).embeds@ == old(self).embeds@.push(embed),
            final(self).content == old(self).content,
    {
        self.embeds.push(embed);
    }

    /// The message with the embed appended.
    pub fn embed(self, embed: MessageEmbed) -> (r: Message)
        ensures
            r.embeds@ == self.embeds@.push(embed),
            r.content == self.content,
    {
        let mut m = self;
        m.with_embed(embed);
        m
    }
}

} // verus!
