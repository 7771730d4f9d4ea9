//! The PDF preview: which pages are rendered or being rendered, the page shown, the page count,
//! render errors, the renderer's command line, and reading the page count from `pdfinfo`.
use vstd::prelude::*;
use std::collections::HashSet;

use crate::strings::{
    chars_of, decimal, decimal_string, lines, occurs_at_exec, ostr, parse_usize, parse_usize_spec,
    split_lines, starts_with, starts_with_exec, trim, trim_exec, views, vviews,
};

verus! {

broadcast use vstd::std_specs::hash::group_hash_axioms;

/// What a render worker reports: a rendered page with its pixel size, a failure, or that no
/// renderer is available.
#[derive(Debug, Clone)]
pub enum PreviewEvent {
    NewImage(usize, usize, usize),
    Error(String),
    Unsupported,
}

/// What to do after asking for a page.
#[derive(Debug)]
pub enum RenderPlan {
    /// The page is rendered or being rendered already.
    Nothing,
    /// No renderer is available: report `Unsupported`.
    Unsupported,
    /// The page is past the end of the PDF: report this error.
    NoSuchPage(String),
    /// Start rendering the page with this tool.
    Start(String),
}

/// The message for a missing renderer.
pub open spec fn no_renderer_message() -> Seq<char> {
    "No PDF renderer found.\nInstall mupdf-tools (mutool), Ghostscript (gs), or poppler (pdftoppm)\nfor an embedded preview."@
}

/// The message for a page past the end.
pub open spec fn no_such_page_message(page: nat, count: nat) -> Seq<char> {
    "Page "@ + decimal(page + 1) + " does not exist (PDF has "@ + decimal(count) + " pages)"@
}

/// The state of a document's preview.
pub struct PreviewViewer {
    rendered_pages: HashSet<usize>,
    active_renders: HashSet<usize>,
    render_error: Option<String>,
    last_pdf_path: Option<String>,
    page: usize,
    num_pages: Option<usize>,
    image_size: Option<(usize, usize)>,
    pan_mode: bool,
    renderer: Option<String>,
}

impl PreviewViewer {
    /// Pages with a rendered image.
    pub closed spec fn rendered_view(&self) -> Set<usize> {
        self.rendered_pages@
    }

    /// Pages being rendered.
    pub closed spec fn active_view(&self) -> Set<usize> {
        self.active_renders@
    }

    /// The latest render error.
    pub closed spec fn error_view(&self) -> Option<Seq<char>> {
        ostr(self.render_error)
    }

    /// The PDF last asked for.
    pub closed spec fn pdf_view(&self) -> Option<Seq<char>> {
        ostr(self.last_pdf_path)
    }

    /// The page shown (0-based).
    pub closed spec fn page_view(&self) -> nat {
        self.page as nat
    }

    /// The PDF's page count, once known.
    pub closed spec fn num_pages_view(&self) -> Option<usize> {
        self.num_pages
    }

    /// Pixel size of the first rendered image.
    pub closed spec fn size_view(&self) -> Option<(usize, usize)> {
        self.image_size
    }

    /// Whether dragging pans the page.
    pub closed spec fn pan_view(&self) -> bool {
        self.pan_mode
    }

    /// The renderer chosen, once found.
    pub closed spec fn renderer_view(&self) -> Option<Seq<char>> {
        ostr(self.renderer)
    }

    /// An empty preview on page 0.
    pub fn new() -> (r: Self)
        ensures
            r.rendered_view() == Set::<usize>::empty(),
            r.active_view() == Set::<usize>::empty(),
            r.error_view() is None,
            r.pdf_view() is None,
            r.page_view() == 0,
            r.num_pages_view() is None,
            r.size_view() is None,
            !r.pan_view(),
            r.renderer_view() is None,
    {
        let r = PreviewViewer {
            rendered_pages: HashSet::new(),
            active_renders: HashSet::new(),
            render_error: None,
            last_pdf_path: None,
            page: 0,
            num_pages: None,
            image_size: None,
            pan_mode: false,
            renderer: None,
        };
        r
    }

    /// Whether `page` is rendered or being rendered, so that asking for it again does nothing.
    pub fn is_requested(&self, page: usize) -> (r: bool)
        ensures
            r == (self.rendered_view().contains(page) || self.active_view().contains(page)),
    {
        self.rendered_pages.contains(&page) || self.active_renders.contains(&page)
    }

    /// Asks for `page` of `pdf_path` to be rendered. Nothing happens when the page is rendered or
    /// being rendered. Otherwise the PDF is remembered; the renderer found earlier is used, else
    /// `found_renderer` (the result of looking for one) is remembered; without a renderer the plan
    /// is `Unsupported`. The page count known earlier is used, else `page_count` (the result of
    /// asking `pdfinfo`) is remembered; a page past a known count gives `NoSuchPage`. Otherwise the
    /// page is marked as being rendered and the plan is to start the renderer.
    pub fn ensure_page_rendered(
        &mut self,
        pdf_path: &str,
        page: usize,
        found_renderer: Option<String>,
        page_count: Option<usize>,
    ) -> (r: RenderPlan)
        requires
            page < usize::MAX,
        ensures
            final(self).rendered_view() == old(self).rendered_view(),
            final(self).error_view() == old(self).error_view(),
            final(self).page_view() == old(self).page_view(),
            final(self).size_view() == old(self).size_view(),
            final(self).pan_view() == old(self).pan_view(),
            (old(self).rendered_view().contains(page) || old(self).active_view().contains(page))
                ==> (r is Nothing && *final(self) == *old(self)),
            !(old(self).rendered_view().contains(page) || old(self).active_view().contains(page))
                ==> {
                let tool = if old(self).renderer_view() is Some {
                    old(self).renderer_view()
                } else {
                    ostr(found_renderer)
                };
                &&& final(self).pdf_view() == Some(pdf_path@)
                &&& final(self).renderer_view() == tool
                &&& match tool {
                    None => {
                        &&& r is Unsupported
                        &&& final(self).num_pages_view() == old(self).num_pages_view()
                        &&& final(self).active_view() == old(self).active_view()
                    },
                    Some(t) => {
                        let count = if old(self).num_pages_view() is Some {
                            old(self).num_pages_view()
                        } else {
                            page_count
                        };
                        &&& final(self).num_pages_view() == count
                        &&& if count is Some && page >= count->0 {
                            &&& r matches RenderPlan::NoSuchPage(m) && m@ == no_such_page_message(
                                page as nat,
                                count->0 as nat,
                            )
                            &&& final(self).active_view() == old(self).active_view()
                        } else {
                            &&& r matches RenderPlan::Start(s) && s@ == t
                            &&& final(self).active_view() == old(self).active_view().insert(page)
                        }
                    },
                }
            },
    {
        if self.rendered_pages.contains(&page) || self.active_renders.contains(&page) {
            return RenderPlan::Nothing;
        }
        self.last_pdf_path = Some(pdf_path.to_owned());
        if self.renderer.is_none() {
            self.renderer = found_renderer;
        }
        let tool = match &self.renderer {
            Some(t) => t.clone(),
            None => return RenderPlan::Unsupported,
        };
        if self.num_pages.is_none() {
            self.num_pages = page_count;
        }
        if let Some(n) = self.num_pages {
            if page >= n {
                let m = String::from_str("Page ").concat(
                    decimal_string((page + 1) as u64).as_str(),
                ).concat(" does not exist (PDF has ").concat(
                    decimal_string(n as u64).as_str(),
                ).concat(" pages)");
                return RenderPlan::NoSuchPage(m);
            }
        }
        self.active_renders.insert(page);
        RenderPlan::Start(tool)
    }

    /// Takes in one event from the render workers (or `None` when there was none): a new image
    /// marks its page rendered and no longer in progress, records the image size if none was
    /// known, and clears the error; an error is recorded; a missing renderer records its message.
    pub fn poll(&mut self, event: Option<PreviewEvent>) -> (r: Option<PreviewEvent>)
        ensures
            r == event,
            final(self).page_view() == old(self).page_view(),
            final(self).pdf_view() == old(self).pdf_view(),
            final(self).num_pages_view() == old(self).num_pages_view(),
            final(self).pan_view() == old(self).pan_view(),
            final(self).renderer_view() == old(self).renderer_view(),
            match event {
                None => *final(self) == *old(self),
                Some(PreviewEvent::NewImage(p, w, h)) => {
                    &&& final(self).rendered_view() == old(self).rendered_view().insert(p)
                    &&& final(self).active_view() == old(self).active_view().remove(p)
                    &&& final(self).size_view() == if old(self).size_view() is None {
                        Some((w, h))
                    } else {
                        old(self).size_view()
                    }
                    &&& final(self).error_view() is None
                },
                Some(PreviewEvent::Error(e)) => {
                    &&& final(self).error_view() == Some(e@)
                    &&& final(self).rendered_view() == old(self).rendered_view()
                    &&& final(self).active_view() == old(self).active_view()
                    &&& final(self).size_view() == old(self).size_view()
                },
                Some(PreviewEvent::Unsupported) => {
                    &&& final(self).error_view() == Some(no_renderer_message())
                    &&& final(self).rendered_view() == old(self).rendered_view()
                    &&& final(self).active_view() == old(self).active_view()
                    &&& final(self).size_view() == old(self).size_view()
                },
            },
    {
        match event {
            None => None,
            Some(ev) => {
                match &ev {
                    PreviewEvent::NewImage(p, w, h) => {
                        self.rendered_pages.insert(*p);
                        self.active_renders.remove(p);
                        if self.image_size.is_none() {
                            self.image_size = Some((*w, *h));
                        }
                        self.render_error = None;
                    },
                    PreviewEvent::Error(e) => {
                        self.render_error = Some(e.clone());
                    },
                    PreviewEvent::Unsupported => {
                        self.render_error = Some(
                            String::from_str(
                                "No PDF renderer found.\nInstall mupdf-tools (mutool), Ghostscript (gs), or poppler (pdftoppm)\nfor an embedded preview.",
                            ),
                        );
                    },
                }
                Some(ev)
            },
        }
    }

    /// Starts over for a newly built PDF: page 0, page count unknown, no pages rendered or in
    /// progress.
    pub fn reset_for_new_pdf(&mut self)
        ensures
            final(self).page_view() == 0,
            final(self).num_pages_view() is None,
            final(self).rendered_view() == Set::<usize>::empty(),
            final(self).active_view() == Set::<usize>::empty(),
            final(self).error_view() == old(self).error_view(),
            final(self).pdf_view() == old(self).pdf_view(),
            final(self).size_view() == old(self).size_view(),
            final(self).pan_view() == old(self).pan_view(),
            final(self).renderer_view() == old(self).renderer_view(),
    {
        self.page = 0;
        self.num_pages = None;
        self.rendered_pages.clear();
        self.active_renders.clear();
        assert(self.rendered_pages@ =~= Set::<usize>::empty());
        assert(self.active_renders@ =~= Set::<usize>::empty());
    }

    /// Whether there may be a page after the one shown (always, while the count is unknown).
    pub fn has_next_page(&self) -> (r: bool)
        ensures
            r == match self.num_pages_view() {
                Some(n) => self.page_view() + 1 < n,
                None => true,
            },
    {
        match self.num_pages {
            Some(n) => self.page < n && self.page + 1 < n,
            None => true,
        }
    }

    /// Turns to the next page when there may be one; returns whether the page changed.
    pub fn next_page(&mut self) -> (r: bool)
        ensures
            r == ((match old(self).num_pages_view() {
                Some(n) => old(self).page_view() + 1 < n,
                None => true,
            }) && old(self).page_view() + 1 <= usize::MAX),
            final(self).page_view() == if r {
                old(self).page_view() + 1
            } else {
                old(self).page_view()
            },
            final(self).rendered_view() == old(self).rendered_view(),
            final(self).active_view() == old(self).active_view(),
            final(self).num_pages_view() == old(self).num_pages_view(),
            final(self).size_view() == old(self).size_view(),
            final(self).error_view() == old(self).error_view(),
            final(self).pdf_view() == old(self).pdf_view(),
            final(self).pan_view() == old(self).pan_view(),
            final(self).renderer_view() == old(self).renderer_view(),
    {
        if self.has_next_page() && self.page < usize::MAX {
            self.page = self.page + 1;
            true
        } else {
            false
        }
    }

    /// Turns to the previous page, if any; returns whether the page changed.
    pub fn previous_page(&mut self) -> (r: bool)
        ensures
            r == (old(self).page_view() > 0),
            final(self).page_view() == if r {
                (old(self).page_view() - 1) as nat
            } else {
                old(self).page_view()
            },
            final(self).rendered_view() == old(self).rendered_view(),
            final(self).active_view() == old(self).active_view(),
            final(self).num_pages_view() == old(self).num_pages_view(),
            final(self).size_view() == old(self).size_view(),
            final(self).error_view() == old(self).error_view(),
            final(self).pdf_view() == old(self).pdf_view(),
            final(self).pan_view() == old(self).pan_view(),
            final(self).renderer_view() == old(self).renderer_view(),
    {
        if self.page > 0 {
            self.page = self.page - 1;
            true
        } else {
            false
        }
    }

    /// Shows page `page`.
    pub fn set_page(&mut self, page: usize)
        ensures
            final(self).page_view() == page,
            final(self).rendered_view() == old(self).rendered_view(),
            final(self).active_view() == old(self).active_view(),
            final(self).error_view() == old(self).error_view(),
            final(self).pdf_view() == old(self).pdf_view(),
            final(self).num_pages_view() == old(self).num_pages_view(),
            final(self).size_view() == old(self).size_view(),
            final(self).pan_view() == old(self).pan_view(),
            final(self).renderer_view() == old(self).renderer_view(),
    {
        self.page = page;
    }

    /// The page shown.
    pub fn page(&self) -> (r: usize)
        ensures
            r == self.page_view(),
    {
        self.page
    }

    /// The page count, once known.
    pub fn num_pages(&self) -> (r: Option<usize>)
        ensures
            r == self.num_pages_view(),
    {
        self.num_pages
    }

    /// Pixel size of the first rendered image, once known.
    pub fn image_size(&self) -> (r: Option<(usize, usize)>)
        ensures
            r == self.size_view(),
    {
        self.image_size
    }

    /// Whether dragging pans the page.
    pub fn pan_mode(&self) -> (r: bool)
        ensures
            r == self.pan_view(),
    {
        self.pan_mode
    }

    /// Sets whether dragging pans the page.
    pub fn set_pan_mode(&mut self, on: bool)
        ensures
            final(self).pan_view() == on,
            final(self).rendered_view() == old(self).rendered_view(),
            final(self).active_view() == old(self).active_view(),
            final(self).error_view() == old(self).error_view(),
            final(self).pdf_view() == old(self).pdf_view(),
            final(self).page_view() == old(self).page_view(),
            final(self).num_pages_view() == old(self).num_pages_view(),
            final(self).size_view() == old(self).size_view(),
            final(self).renderer_view() == old(self).renderer_view(),
    {
        self.pan_mode = on;
    }

    /// The latest render error.
    pub fn render_error(&self) -> (r: Option<&str>)
        ensures
            match r {
                Some(e) => self.error_view() == Some(e@),
                None => self.error_view() is None,
            },
    {
        match &self.render_error {
            Some(e) => Some(e.as_str()),
            None => None,
        }
    }

    /// Records (or clears) a render error.
    pub fn set_render_error(&mut self, e: Option<String>)
        ensures
            final(self).error_view() == ostr(e),
            final(self).rendered_view() == old(self).rendered_view(),
            final(self).active_view() == old(self).active_view(),
            final(self).pdf_view() == old(self).pdf_view(),
            final(self).page_view() == old(self).page_view(),
            final(self).num_pages_view() == old(self).num_pages_view(),
            final(self).size_view() == old(self).size_view(),
            final(self).pan_view() == old(self).pan_view(),
            final(self).renderer_view() == old(self).renderer_view(),
    {
        self.render_error = e;
    }

    /// The PDF last asked for.
    pub fn last_pdf_path(&self) -> (r: Option<&str>)
        ensures
            match r {
                Some(p) => self.pdf_view() == Some(p@),
                None => self.pdf_view() is None,
            },
    {
        match &self.last_pdf_path {
            Some(p) => Some(p.as_str()),
            None => None,
        }
    }

    /// The renderer chosen, once found.
    pub fn renderer(&self) -> (r: Option<&str>)
        ensures
            match r {
                Some(p) => self.renderer_view() == Some(p@),
                None => self.renderer_view() is None,
            },
    {
        match &self.renderer {
            Some(p) => Some(p.as_str()),
            None => None,
        }
    }
}

/// The page count `pdfinfo` printed: the first line starting with `Pages:`, its rest trimmed and
/// read as a number; `None` without such a line or when the number does not parse.
pub open spec fn page_count_spec(stdout: Seq<char>) -> Option<nat>
    decreases lines(stdout).len(),
{
    page_count_from(lines(stdout))
}

/// See `page_count_spec`, over the lines.
pub open spec fn page_count_from(ls: Seq<Seq<char>>) -> Option<nat>
    decreases ls.len(),
{
    if ls.len() == 0 {
        None
    } else if starts_with(ls[0], "Pages:"@) {
        parse_usize_spec(trim(ls[0].subrange(6, ls[0].len() as int)))
    } else {
        page_count_from(ls.drop_first())
    }
}

/// Reads the page count from what `pdfinfo` printed.
pub fn parse_page_count(stdout: &str) -> (r: Option<usize>)
    ensures
        match r {
            Some(n) => page_count_spec(stdout@) == Some(n as nat),
            None => page_count_spec(stdout@) is None,
        },
{
    let sc = chars_of(stdout);
    let ls = split_lines(sc.as_slice());
    let ghost lv = vviews(ls@);
    let prefix = chars_of("Pages:");
    proof {
        reveal_strlit("Pages:");
    }
    assert(lv.subrange(0, lv.len() as int) =~= lv);
    let mut i: usize = 0;
    while i < ls.len()
        invariant
            lv == vviews(ls@),
            lv == lines(stdout@),
            prefix@ == "Pages:"@,
            "Pages:"@.len() == 6,
            0 <= i <= ls@.len(),
            page_count_from(lv.subrange(i as int, lv.len() as int)) == page_count_from(lv),
        decreases ls@.len() - i,
    {
        let line = ls[i].as_slice();
        proof {
            assert(lv.subrange(i as int, lv.len() as int)[0] == ls@[i as int]@);
            assert(lv.subrange(i as int, lv.len() as int).drop_first() =~= lv.subrange(
                i + 1,
                lv.len() as int,
            ));
        }
        if starts_with_exec(line, prefix.as_slice()) {
            let rest = crate::strings::copy_range(line, 6, line.len());
            let t = trim_exec(rest.as_slice());
            return parse_usize(t.as_slice());
        }
        i = i + 1;
    }
    proof {
        assert(lv.subrange(i as int, lv.len() as int) =~= Seq::<Seq<char>>::empty());
    }
    None
}

/// The arguments to run renderer `tool_name` (the file name of the tool) with: render page
/// `page` (0-based) of `input` at `dpi` into `output` (`stem` is `output` without its extension,
/// for pdftoppm). `None` for an unknown renderer.
pub open spec fn renderer_args_spec(
    tool_name: Seq<char>,
    dpi: nat,
    page: nat,
    output: Seq<char>,
    input: Seq<char>,
    stem: Seq<char>,
) -> Option<Seq<Seq<char>>> {
    let p = decimal(page + 1);
    let d = decimal(dpi);
    if tool_name == "mutool"@ || tool_name == "mudraw"@ {
        Some(seq!["draw"@, "-r"@, d, "-o"@, output, input, p])
    } else if tool_name == "gswin64c"@ || tool_name == "gswin32c"@ || tool_name == "gs"@ {
        Some(
            seq![
                "-dNOPAUSE"@,
                "-dBATCH"@,
                "-sDEVICE=png16m"@,
                "-r"@ + d,
                "-dFirstPage="@ + p,
                "-dLastPage="@ + p,
                "-sOutputFile="@ + output,
                input,
            ],
        )
    } else if tool_name == "pdftoppm"@ {
        Some(seq!["-f"@, p, "-l"@, p, "-r"@, d, "-png"@, "-singlefile"@, input, stem])
    } else {
        None
    }
}

fn str_eq(a: &str, b: &str) -> (r: bool)
    ensures
        r == (a@ == b@),
{
    let ac = chars_of(a);
    let bc = chars_of(b);
    let r = ac.len() == bc.len() && occurs_at_exec(ac.as_slice(), bc.as_slice(), 0);
    proof {
        if ac@.len() == bc@.len() {
            assert(ac@.subrange(0, bc@.len() as int) =~= ac@);
        }
    }
    r
}

fn push_str(v: &mut Vec<String>, s: String)
    ensures
        views(final(v)@) == views(old(v)@).push(s@),
{
    v.push(s);
    assert(views(v@) =~= views(old(v)@).push(s@));
}

/// The renderer's arguments (see `renderer_args_spec`).
pub fn renderer_args(
    tool_name: &str,
    dpi: u32,
    page: usize,
    output: &str,
    input: &str,
    stem: &str,
) -> (r: Option<Vec<String>>)
    requires
        page < usize::MAX,
    ensures
        match r {
            Some(v) => renderer_args_spec(
                tool_name@,
                dpi as nat,
                page as nat,
                output@,
                input@,
                stem@,
            ) == Some(views(v@)),
            None => renderer_args_spec(
                tool_name@,
                dpi as nat,
                page as nat,
                output@,
                input@,
                stem@,
            ) is None,
        },
{
    let p = decimal_string((page + 1) as u64);
    let d = decimal_string(dpi as u64);
    let mut v: Vec<String> = Vec::new();
    if str_eq(tool_name, "mutool") || str_eq(tool_name, "mudraw") {
        push_str(&mut v, String::from_str("draw"));
        push_str(&mut v, String::from_str("-r"));
        push_str(&mut v, d);
        push_str(&mut v, String::from_str("-o"));
        push_str(&mut v, String::from_str(output));
        push_str(&mut v, String::from_str(input));
        push_str(&mut v, p);
    } else if str_eq(tool_name, "gswin64c") || str_eq(tool_name, "gswin32c") || str_eq(
        tool_name,
        "gs",
    ) {
        push_str(&mut v, String::from_str("-dNOPAUSE"));
        push_str(&mut v, String::from_str("-dBATCH"));
        push_str(&mut v, String::from_str("-sDEVICE=png16m"));
        push_str(&mut v, String::from_str("-r").concat(d.as_str()));
        push_str(&mut v, String::from_str("-dFirstPage=").concat(p.as_str()));
        push_str(&mut v, String::from_str("-dLastPage=").concat(p.as_str()));
        push_str(&mut v, String::from_str("-sOutputFile=").concat(output));
        push_str(&mut v, String::from_str(input));
    } else if str_eq(tool_name, "pdftoppm") {
        push_str(&mut v, String::from_str("-f"));
        push_str(&mut v, String::from_str(p.as_str()));
        push_str(&mut v, String::from_str("-l"));
        push_str(&mut v, p);
        push_str(&mut v, String::from_str("-r"));
        push_str(&mut v, d);
        push_str(&mut v, String::from_str("-png"));
        push_str(&mut v, String::from_str("-singlefile"));
        push_str(&mut v, String::from_str(input));
        push_str(&mut v, String::from_str(stem));
    } else {
        return None;
    }
    proof {
        let sp = renderer_args_spec(tool_name@, dpi as nat, page as nat, output@, input@, stem@);
        assert(sp is Some);
        assert(views(v@) =~= sp->Some_0);
    }
    Some(v)
}

/// How rendering a page went wrong.
#[derive(Debug)]
pub enum RenderFailure {
    /// The tool is not a renderer this editor knows.
    UnknownRenderer,
    /// The tool could not be started; the system's message.
    CouldNotStart(String),
    /// The tool exited unsuccessfully; what it printed on standard error.
    Failed(String),
}

/// The error reported for a failed render by `tool` (whose file name is `tool_name`).
pub open spec fn render_failure_spec(tool_name: Seq<char>, tool: Seq<char>, f: RenderFailure) -> Seq<char> {
    let mu = tool_name == "mutool"@ || tool_name == "mudraw"@;
    let gs = tool_name == "gswin64c"@ || tool_name == "gswin32c"@ || tool_name == "gs"@;
    let pp = tool_name == "pdftoppm"@;
    if !(mu || gs || pp) {
        "Unknown renderer: "@ + tool
    } else {
        match f {
            RenderFailure::UnknownRenderer => "Unknown renderer: "@ + tool,
            RenderFailure::CouldNotStart(e) => if pp {
                "Failed to run pdftoppm: "@ + e@
            } else {
                "Failed to run "@ + tool + ": "@ + e@
            },
            RenderFailure::Failed(err) => if mu {
                tool + " draw failed: "@ + trim(err@)
            } else if gs {
                tool + " failed: "@ + trim(err@)
            } else {
                "pdftoppm failed: "@ + trim(err@)
            },
        }
    }
}

/// The error reported for a failed render (see `render_failure_spec`).
pub fn render_failure_message(tool_name: &str, tool: &str, failure: RenderFailure) -> (r: String)
    ensures
        r@ == render_failure_spec(tool_name@, tool@, failure),
{
    let mu = str_eq(tool_name, "mutool") || str_eq(tool_name, "mudraw");
    let gs = str_eq(tool_name, "gswin64c") || str_eq(tool_name, "gswin32c") || str_eq(tool_name, "gs");
    let pp = str_eq(tool_name, "pdftoppm");
    if !(mu || gs || pp) {
        return String::from_str("Unknown renderer: ").concat(tool);
    }
    match failure {
        RenderFailure::UnknownRenderer => String::from_str("Unknown renderer: ").concat(tool),
        RenderFailure::CouldNotStart(e) => if pp {
            String::from_str("Failed to run pdftoppm: ").concat(e.as_str())
        } else {
            String::from_str("Failed to run ").concat(tool).concat(": ").concat(e.as_str())
        },
        RenderFailure::Failed(err) => {
            let ec = chars_of(err.as_str());
            let t = trim_exec(ec.as_slice());
            let ts = crate::strings::string_from_chars(t.as_slice(), 0, t.len());
            proof {
                assert(t@.subrange(0, t@.len() as int) =~= t@);
            }
            if mu {
                String::from_str(tool).concat(" draw failed: ").concat(ts.as_str())
            } else if gs {
                String::from_str(tool).concat(" failed: ").concat(ts.as_str())
            } else {
                String::from_str("pdftoppm failed: ").concat(ts.as_str())
            }
        },
    }
}

/// The error reported when a rendered image cannot be read back.
pub fn decode_failure_message(e: &str) -> (r: String)
    ensures
        r@ == "Failed to decode rendered image: "@ + e@,
{
    String::from_str("Failed to decode rendered image: ").concat(e)
}

} // verus!
