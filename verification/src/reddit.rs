//! Subreddit listings: where a listing is requested and which rows it adds to
//! the `json` table.

use vstd::prelude::*;

verus! {

/// One post of a listing, as stored in the `json` table.
#[derive(Debug)]
pub struct Datas {
    pub title: String,
    pub author_fullname: String,
    pub url: String,
}

impl View for Datas {
    type V = (Seq<char>, Seq<char>, Seq<char>);

    open spec fn view(&self) -> (Seq<char>, Seq<char>, Seq<char>) {
        (self.title@, self.author_fullname@, self.url@)
    }
}

/// An entry of a listing.
#[derive(Debug)]
pub struct Children {
    pub data: Datas,
}

/// The body of a listing.
#[derive(Debug)]
pub struct Data {
    pub children: Vec<Children>,
}

/// A subreddit listing.
#[derive(Debug)]
pub struct RedditJson {
    pub data: Data,
}

impl View for RedditJson {
    type V = Seq<(Seq<char>, Seq<char>, Seq<char>)>;

    /// The posts of the listing, in order.
    open spec fn view(&self) -> Seq<(Seq<char>, Seq<char>, Seq<char>)> {
        self.data.children@.map_values(|c: Children| c.data@)
    }
}

/// The address of the JSON listing of the subreddit `name`.
pub open spec fn subreddit_url_text(name: Seq<char>) -> Seq<char> {
    "https://www.reddit.com/r/"@ + name + ".json"@
}

/// The posts of all listings, listing after listing, each in its own order.
pub open spec fn all_posts(listings: Seq<Seq<(Seq<char>, Seq<char>, Seq<char>)>>) -> Seq<
    (Seq<char>, Seq<char>, Seq<char>),
>
    decreases listings.len(),
{
    if listings.len() == 0 {
        Seq::empty()
    } else {
        all_posts(listings.drop_last()) + listings.last()
    }
}

/// The rows are every post of every listing: all the listings' posts put one
/// after the other, so each listing adds all of its posts, in order.
pub proof fn lemma_rows_are_every_post(listings: Seq<Seq<(Seq<char>, Seq<char>, Seq<char>)>>)
    ensures
        all_posts(listings) == listings.flatten(),
        forall|l: Seq<(Seq<char>, Seq<char>, Seq<char>)>|
            #[trigger] all_posts(listings.push(l)) == all_posts(listings) + l,
    decreases listings.len(),
{
    if listings.len() > 0 {
        lemma_rows_are_every_post(listings.drop_last());
        listings.drop_last().lemma_flatten_push(listings.last());
        assert(listings.drop_last().push(listings.last()) =~= listings);
    }
    assert forall|l: Seq<(Seq<char>, Seq<char>, Seq<char>)>|
        #[trigger] all_posts(listings.push(l)) == all_posts(listings) + l by {
        assert(listings.push(l).drop_last() =~= listings);
    }
}

/// The listing address of every subreddit is `https://www.reddit.com/r/`,
/// then the name, then `.json`.
pub proof fn lemma_listing_url_shape(name: Seq<char>)
    ensures
        subreddit_url_text(name).len() == name.len() + 30,
        subreddit_url_text(name).take(25) == seq![
            'h', 't', 't', 'p', 's', ':', '/', '/', 'w', 'w', 'w', '.', 'r', 'e', 'd', 'd', 'i',
            't', '.', 'c', 'o', 'm', '/', 'r', '/'
        ],
        subreddit_url_text(name).subrange(25, 25int + name.len()) == name,
        subreddit_url_text(name).skip(25int + name.len()) == seq!['.', 'j', 's', 'o', 'n'],
{
    reveal_strlit("https://www.reddit.com/r/");
    reveal_strlit(".json");
    let u = subreddit_url_text(name);
    assert(u.take(25) =~= seq![
        'h', 't', 't', 'p', 's', ':', '/', '/', 'w', 'w', 'w', '.', 'r', 'e', 'd', 'd', 'i',
        't', '.', 'c', 'o', 'm', '/', 'r', '/'
    ]);
    assert(u.subrange(25, 25int + name.len()) =~= name);
    assert(u.skip(25int + name.len()) =~= seq!['.', 'j', 's', 'o', 'n']);
}

impl Datas {
    /// A copy of the post.
    pub fn copy(&self) -> (d: Datas)
        ensures
            d@ == self@,
    {
        Datas {
            title: self.title.clone(),
            author_fullname: self.author_fullname.clone(),
            url: self.url.clone(),
        }
    }
}

impl RedditJson {
    /// The address from which the listing of the subreddit `name` is requested.
    pub fn subreddit_url(name: &str) -> (url: String)
        ensures
            url@ == subreddit_url_text(name@),
            url@.len() == name@.len() + 30,
            url@.subrange(25, 25int + name@.len()) == name@,
            url@.skip(25int + name@.len()) == seq!['.', 'j', 's', 'o', 'n'],
    {
        proof {
            lemma_listing_url_shape(name@);
            reveal_strlit("https://www.reddit.com/r/");
            reveal_strlit(".json");
        }
        let mut url = String::from_str("https://www.reddit.com/r/");
        url.append(name);
        url.append(".json");
        url
    }

    /// The rows that the listings add to the `json` table, in the order in
    /// which they are inserted: the posts of each listing, listing after
    /// listing.
    pub fn db_rows(new: &Vec<RedditJson>) -> (rows: Vec<Datas>)
        ensures
            rows@.map_values(|d: Datas| d@) == all_posts(new@.map_values(|j: RedditJson| j@)),
            rows@.map_values(|d: Datas| d@) == new@.map_values(|j: RedditJson| j@).flatten(),
    {
        let ghost listings = new@.map_values(|j: RedditJson| j@);
        let mut rows: Vec<Datas> = Vec::new();
        let mut j: usize = 0;
        while j < new.len()
            invariant
                j <= new@.len(),
                listings == new@.map_values(|l: RedditJson| l@),
                rows@.map_values(|d: Datas| d@) == all_posts(listings.take(j as int)),
            decreases new@.len() - j,
        {
            let children = &new[j].data.children;
            let ghost base = rows@.map_values(|d: Datas| d@);
            let mut k: usize = 0;
            while k < children.len()
                invariant
                    k <= children@.len(),
                    rows@.map_values(|d: Datas| d@) == base + new@[j as int]@.take(k as int),
                    children == &new@[j as int].data.children,
                decreases children@.len() - k,
            {
                let row = children[k].data.copy();
                let ghost before = rows@.map_values(|d: Datas| d@);
                rows.push(row);
                assert(rows@.map_values(|d: Datas| d@) =~= before.push(row@));
                assert(new@[j as int]@.take(k + 1) =~= new@[j as int]@.take(k as int).push(
                    children@[k as int].data@,
                ));
                k = k + 1;
            }
            assert(new@[j as int]@.take(children@.len() as int) =~= new@[j as int]@);
            assert(listings.take(j + 1).drop_last() =~= listings.take(j as int));
            assert(listings.take(j + 1).last() == new@[j as int]@);
            j = j + 1;
        }
        assert(listings.take(new@.len() as int) =~= listings);
        proof {
            lemma_rows_are_every_post(listings);
        }
        rows
    }
}

} // verus!
