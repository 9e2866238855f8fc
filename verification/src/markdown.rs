use crate::font::FontRenderer;
use crate::font::usable_font;
use crate::image::image_art;
use crate::image::ImageFile;
use crate::image::ImageProcessor;
use crate::terminal::code_art;
use crate::terminal::code_chars;
use crate::terminal::item_art;
use crate::terminal::item_chars;
use crate::terminal::list_art;
use crate::terminal::list_chars;
use crate::terminal::PIXEL_SIZE;
use crate::terminal::quote_art;
use crate::terminal::TerminalRenderer;
use crate::terminal::text_art;
use crate::terminal::text_chars;
use crate::text::blank;
use crate::text::chars_of;
use crate::text::has_prefix;
use crate::text::is_blank;
use crate::text::lines;
use crate::text::push_repeat;
use crate::text::repeat;
use crate::text::same_chars;
use crate::text::slice_of;
use crate::text::split_lines;
use crate::text::starts_with;
use crate::text::string_of;
use crate::text::views;
use vstd::prelude::*;

verus! {

/// What kind of content an element holds.
#[derive(Debug, Clone, Copy, PartialEq, Eq, Structural)]
pub enum ElementType {
    /// A heading of the given level.
    Heading(u8),
    Paragraph,
    CodeBlock,
    /// A picture; the attribute `src` holds its path.
    Image,
    Text,
    Blockquote,
    /// A list; its items are the element's children.
    List,
    ListItem,
}

/// One piece of a document.
#[derive(Debug)]
pub struct MarkdownElement {
    pub element_type: ElementType,
    /// The element's text.
    pub content: String,
    /// The items of a list.
    pub children: Vec<MarkdownElement>,
    /// Pairs of a name and a value. Of two pairs with one name the later counts.
    pub attributes: Vec<(String, String)>,
}

/// What an element holds, as plain values. Of its children it keeps the contents.
pub ghost struct ElementView {
    pub element_type: ElementType,
    pub content: Seq<char>,
    pub children: Seq<Seq<char>>,
    pub attributes: Seq<(Seq<char>, Seq<char>)>,
}

impl View for MarkdownElement {
    type V = ElementView;

    open spec fn view(&self) -> ElementView {
        ElementView {
            element_type: self.element_type,
            content: self.content@,
            children: contents(self.children@),
            attributes: attribute_views(self.attributes@),
        }
    }
}

/// The content of each element.
pub open spec fn contents(items: Seq<MarkdownElement>) -> Seq<Seq<char>> {
    items.map_values(|item: MarkdownElement| item.content@)
}

/// Each attribute as a pair of texts: its name and its value.
pub open spec fn attribute_views(attributes: Seq<(String, String)>) -> Seq<(Seq<char>, Seq<char>)> {
    attributes.map_values(|pair: (String, String)| (pair.0@, pair.1@))
}

/// The view of each element.
pub open spec fn element_views(elements: Seq<MarkdownElement>) -> Seq<ElementView> {
    elements.map_values(|element: MarkdownElement| element@)
}

/// What begins a first-level heading.
pub open spec fn heading_mark() -> Seq<char> {
    seq!['#', ' ']
}

/// What begins a second-level heading.
pub open spec fn subheading_mark() -> Seq<char> {
    seq!['#', '#', ' ']
}

/// What begins a line that names a picture.
pub open spec fn image_mark() -> Seq<char> {
    seq!['!', '[', ']', '(']
}

/// The name of the attribute that holds a picture's path.
pub open spec fn source_key() -> Seq<char> {
    seq!['s', 'r', 'c']
}

/// Whether a line names a picture: it begins with `![](` and ends with `)`.
pub open spec fn is_image_line(line: Seq<char>) -> bool {
    has_prefix(line, image_mark()) && line.last() == ')'
}

/// A heading of the given level.
pub open spec fn heading(level: u8, text: Seq<char>) -> ElementView {
    ElementView {
        element_type: ElementType::Heading(level),
        content: text,
        children: Seq::empty(),
        attributes: Seq::empty(),
    }
}

/// A paragraph.
pub open spec fn paragraph(text: Seq<char>) -> ElementView {
    ElementView {
        element_type: ElementType::Paragraph,
        content: text,
        children: Seq::empty(),
        attributes: Seq::empty(),
    }
}

/// A picture at the given path.
pub open spec fn picture(path: Seq<char>) -> ElementView {
    ElementView {
        element_type: ElementType::Image,
        content: Seq::empty(),
        children: Seq::empty(),
        attributes: seq![(source_key(), path)],
    }
}

/// The paragraph gathered so far as an element, or nothing where no line was gathered.
pub open spec fn flushed(gathered: Seq<char>) -> Seq<ElementView> {
    if gathered.len() == 0 {
        Seq::empty()
    } else {
        seq![paragraph(gathered)]
    }
}

/// The paragraph gathered so far with one more line.
pub open spec fn gather(gathered: Seq<char>, line: Seq<char>) -> Seq<char> {
    if gathered.len() == 0 {
        line
    } else {
        gathered + seq!['\n'] + line
    }
}

/// The elements of the lines from index `i` on, where `gathered` holds the lines of
/// the paragraph that is open. A heading, a picture and a blank line close the open
/// paragraph; any other line is added to it.
pub open spec fn parse_lines(lines: Seq<Seq<char>>, i: int, gathered: Seq<char>) -> Seq<ElementView>
    decreases lines.len() - i,
{
    if !(0 <= i < lines.len()) {
        flushed(gathered)
    } else if has_prefix(lines[i], heading_mark()) {
        flushed(gathered) + seq![heading(1, lines[i].skip(2))] + parse_lines(
            lines,
            i + 1,
            Seq::empty(),
        )
    } else if has_prefix(lines[i], subheading_mark()) {
        flushed(gathered) + seq![heading(2, lines[i].skip(3))] + parse_lines(
            lines,
            i + 1,
            Seq::empty(),
        )
    } else if is_image_line(lines[i]) {
        flushed(gathered) + seq![picture(lines[i].subrange(4, lines[i].len() - 1))] + parse_lines(
            lines,
            i + 1,
            Seq::empty(),
        )
    } else if is_blank(lines[i]) {
        flushed(gathered) + parse_lines(lines, i + 1, Seq::empty())
    } else {
        parse_lines(lines, i + 1, gather(gathered, lines[i]))
    }
}

/// The elements of a document.
pub open spec fn parsed(content: Seq<char>) -> Seq<ElementView> {
    parse_lines(split_lines(content), 0, Seq::empty())
}

/// An element without children or attributes.
fn plain_element(element_type: ElementType, content: &Vec<char>) -> (element: MarkdownElement)
    ensures
        element@ == (ElementView {
            element_type,
            content: content@,
            children: Seq::empty(),
            attributes: Seq::empty(),
        }),
{
    let element = MarkdownElement {
        element_type,
        content: string_of(content),
        children: Vec::new(),
        attributes: Vec::new(),
    };
    assert(element@.children =~= Seq::empty());
    assert(element@.attributes =~= Seq::empty());
    element
}

/// Closes the open paragraph: adds it to the elements if it holds anything.
fn flush(elements: &mut Vec<MarkdownElement>, gathered: &mut Vec<char>)
    ensures
        element_views(final(elements)@) == element_views(old(elements)@) + flushed(old(gathered)@),
        final(gathered)@.len() == 0,
{
    if gathered.len() > 0 {
        let element = plain_element(ElementType::Paragraph, gathered);
        elements.push(element);
        gathered.clear();
        assert(element_views(elements@) =~= element_views(old(elements)@) + flushed(
            old(gathered)@,
        ));
    } else {
        assert(element_views(elements@) =~= element_views(old(elements)@) + flushed(
            old(gathered)@,
        ));
    }
}

/// Adds an element to the elements.
fn push_element(elements: &mut Vec<MarkdownElement>, element: MarkdownElement)
    ensures
        element_views(final(elements)@) == element_views(old(elements)@) + seq![element@],
{
    elements.push(element);
    assert(element_views(elements@) =~= element_views(old(elements)@) + seq![element@]);
}

/// Reads a document line by line. A line that begins with `# ` or `## ` is a heading
/// of the first or second level, a line of the shape `![](path)` a picture; a blank
/// line ends a paragraph; every other line belongs to a paragraph, whose lines are
/// joined by line feeds.
pub fn parse_markdown(content: &str) -> (elements: Vec<MarkdownElement>)
    ensures
        element_views(elements@) == parsed(content@),
{
    let chars = chars_of(content);
    let all = lines(&chars);
    let heading_prefix: Vec<char> = vec!['#', ' '];
    let subheading_prefix: Vec<char> = vec!['#', '#', ' '];
    let image_prefix: Vec<char> = vec!['!', '[', ']', '('];
    assert(heading_prefix@ =~= heading_mark());
    assert(subheading_prefix@ =~= subheading_mark());
    assert(image_prefix@ =~= image_mark());
    let mut elements: Vec<MarkdownElement> = Vec::new();
    let mut gathered: Vec<char> = Vec::new();
    let mut i: usize = 0;
    assert(element_views(elements@) =~= Seq::<ElementView>::empty());
    while i < all.len()
        invariant
            i <= all.len(),
            heading_prefix@ == heading_mark(),
            subheading_prefix@ == subheading_mark(),
            image_prefix@ == image_mark(),
            views(all@) == split_lines(content@),
            parsed(content@) == element_views(elements@) + parse_lines(
                views(all@),
                i as int,
                gathered@,
            ),
        decreases all.len() - i,
    {
        let line = &all[i];
        let ghost before = element_views(elements@);
        let ghost open = gathered@;
        let ghost rest = parse_lines(views(all@), i + 1, Seq::empty());
        assert(views(all@)[i as int] == line@);
        if starts_with(line, &heading_prefix) {
            flush(&mut elements, &mut gathered);
            let text = slice_of(line, 2, line.len());
            push_element(&mut elements, plain_element(ElementType::Heading(1), &text));
            assert(text@ =~= line@.skip(2));
            assert(before + (flushed(open) + seq![heading(1, line@.skip(2))] + rest) =~= before
                + flushed(open) + seq![heading(1, line@.skip(2))] + rest);
            assert(gathered@ =~= Seq::<char>::empty());
        } else if starts_with(line, &subheading_prefix) {
            flush(&mut elements, &mut gathered);
            let text = slice_of(line, 3, line.len());
            push_element(&mut elements, plain_element(ElementType::Heading(2), &text));
            assert(text@ =~= line@.skip(3));
            assert(before + (flushed(open) + seq![heading(2, line@.skip(3))] + rest) =~= before
                + flushed(open) + seq![heading(2, line@.skip(3))] + rest);
            assert(gathered@ =~= Seq::<char>::empty());
        } else if starts_with(line, &image_prefix) && line[line.len() - 1] == ')' {
            flush(&mut elements, &mut gathered);
            let path = slice_of(line, 4, line.len() - 1);
            let element = MarkdownElement {
                element_type: ElementType::Image,
                content: String::new(),
                children: Vec::new(),
                attributes: vec![(String::from_str("src"), string_of(&path))],
            };
            proof {
                reveal_strlit("src");
                assert("src"@ =~= source_key());
                assert(element@.children =~= Seq::empty());
                assert(element@.attributes =~= seq![(source_key(), path@)]);
            }
            push_element(&mut elements, element);
            assert(before + (flushed(open) + seq![picture(line@.subrange(4, line@.len() - 1))]
                + rest) =~= before + flushed(open) + seq![
                picture(line@.subrange(4, line@.len() - 1)),
            ] + rest);
            assert(gathered@ =~= Seq::<char>::empty());
        } else if blank(line) {
            flush(&mut elements, &mut gathered);
            assert(before + (flushed(open) + rest) =~= before + flushed(open) + rest);
            assert(gathered@ =~= Seq::<char>::empty());
        } else {
            if gathered.len() > 0 {
                gathered.push('\n');
            }
            let mut j: usize = 0;
            let ghost base = gathered@;
            while j < line.len()
                invariant
                    j <= line.len(),
                    gathered@ == base + line@.take(j as int),
                decreases line.len() - j,
            {
                gathered.push(line[j]);
                assert(line@.take(j + 1) =~= line@.take(j as int).push(line@[j as int]));
                j += 1;
            }
            assert(line@.take(line.len() as int) =~= line@);
            assert(gathered@ =~= gather(open, line@));
        }
        i += 1;
    }
    flush(&mut elements, &mut gathered);
    elements
}

/// The value of the last of the first `count` attributes that has the given name.
pub open spec fn attribute(
    attributes: Seq<(Seq<char>, Seq<char>)>,
    name: Seq<char>,
    count: int,
) -> Option<Seq<char>>
    decreases count,
{
    if count <= 0 {
        None
    } else if attributes[count - 1].0 == name {
        Some(attributes[count - 1].1)
    } else {
        attribute(attributes, name, count - 1)
    }
}

/// The path of the picture that an element names, if it names one.
pub open spec fn source(element: ElementView) -> Option<Seq<char>> {
    attribute(element.attributes, source_key(), element.attributes.len() as int)
}

/// The path and the bytes of each file.
pub open spec fn file_views(files: Seq<ImageFile>) -> Seq<(Seq<char>, Seq<u8>)> {
    files.map_values(|file: ImageFile| (file.path@, file.data@))
}

/// The bytes of the first file from index `from` on that has the given path.
pub open spec fn file_data(
    files: Seq<(Seq<char>, Seq<u8>)>,
    path: Seq<char>,
    from: int,
) -> Option<Seq<u8>>
    decreases files.len() - from,
{
    if !(0 <= from < files.len()) {
        None
    } else if files[from].0 == path {
        Some(files[from].1)
    } else {
        file_data(files, path, from + 1)
    }
}

/// The text that is shown for a heading: as many `#` as its level, a space, and its
/// content.
pub open spec fn heading_text(level: u8, content: Seq<char>) -> Seq<char> {
    repeat('#', level as nat) + seq![' '] + content
}

/// An element as it is shown. `files` holds the files that could be read.
pub open spec fn element_art(
    font: Option<Seq<u8>>,
    element: ElementView,
    size: u16,
    max_width: usize,
    files: Seq<(Seq<char>, Seq<u8>)>,
) -> Seq<char> {
    match element.element_type {
        ElementType::Heading(level) => text_art(
            font,
            heading_text(level, element.content),
            size,
            max_width,
        ),
        ElementType::Paragraph => text_art(font, element.content, size, max_width),
        ElementType::CodeBlock => code_art(font, element.content, size, max_width),
        ElementType::Image => match source(element) {
            Some(path) => image_art(path, file_data(files, path, 0)),
            None => Seq::empty(),
        },
        ElementType::Text => text_art(font, element.content, size, max_width),
        ElementType::Blockquote => quote_art(font, element.content, size, max_width),
        ElementType::List => list_art(
            font,
            element.children,
            size,
            max_width,
            element.children.len() as int,
        ),
        ElementType::ListItem => item_art(font, element.content, size, max_width),
    }
}

/// The first `count` elements as they are shown, each followed by a line feed.
pub open spec fn document_art(
    font: Option<Seq<u8>>,
    elements: Seq<ElementView>,
    size: u16,
    max_width: usize,
    files: Seq<(Seq<char>, Seq<u8>)>,
    count: int,
) -> Seq<char>
    decreases count,
{
    if count <= 0 {
        Seq::empty()
    } else {
        document_art(font, elements, size, max_width, files, count - 1) + element_art(
            font,
            elements[count - 1],
            size,
            max_width,
            files,
        ) + seq!['\n']
    }
}

/// The characters whose bitmaps are made for an element.
pub open spec fn element_chars(
    font: Option<Seq<u8>>,
    element: ElementView,
    size: u16,
    max_width: usize,
) -> Set<char> {
    match element.element_type {
        ElementType::Heading(level) => text_chars(
            font,
            heading_text(level, element.content),
            size,
            max_width,
        ),
        ElementType::Paragraph => text_chars(font, element.content, size, max_width),
        ElementType::CodeBlock => code_chars(font, element.content),
        ElementType::Image => Set::empty(),
        ElementType::Text => text_chars(font, element.content, size, max_width),
        ElementType::Blockquote => text_chars(font, element.content, size, max_width),
        ElementType::List => list_chars(
            font,
            element.children,
            size,
            max_width,
            element.children.len() as int,
        ),
        ElementType::ListItem => item_chars(font, element.content, size, max_width),
    }
}

/// The characters whose bitmaps are made for the first `count` elements.
pub open spec fn document_chars(
    font: Option<Seq<u8>>,
    elements: Seq<ElementView>,
    size: u16,
    max_width: usize,
    count: int,
) -> Set<char>
    decreases count,
{
    if count <= 0 {
        Set::empty()
    } else {
        document_chars(font, elements, size, max_width, count - 1).union(
            element_chars(font, elements[count - 1], size, max_width),
        )
    }
}

/// The paths of the pictures that the first `count` elements name, in order.
pub open spec fn sources(elements: Seq<ElementView>, count: int) -> Seq<Seq<char>>
    decreases count,
{
    if count <= 0 {
        Seq::empty()
    } else if elements[count - 1].element_type == ElementType::Image && source(
        elements[count - 1],
    ) is Some {
        sources(elements, count - 1).push(source(elements[count - 1])->0)
    } else {
        sources(elements, count - 1)
    }
}

/// Finds the last attribute with the given name.
fn find_attribute(attributes: &Vec<(String, String)>, name: &Vec<char>) -> (found: Option<usize>)
    ensures
        ({
            let pairs = attribute_views(attributes@);
            match found {
                Some(k) => k < attributes.len() && attribute(pairs, name@, pairs.len() as int)
                    == Some(attributes@[k as int].1@),
                None => attribute(pairs, name@, pairs.len() as int) is None,
            }
        }),
{
    let ghost pairs = attribute_views(attributes@);
    let mut k: usize = attributes.len();
    while k > 0
        invariant
            k <= attributes.len(),
            pairs == attribute_views(attributes@),
            attribute(pairs, name@, pairs.len() as int) == attribute(pairs, name@, k as int),
        decreases k,
    {
        let key = chars_of(attributes[k - 1].0.as_str());
        if same_chars(&key, name) {
            return Some(k - 1);
        }
        k -= 1;
    }
    None
}

/// Finds the first file with the given path.
fn find_file(files: &Vec<ImageFile>, path: &Vec<char>) -> (found: Option<usize>)
    ensures
        match found {
            Some(k) => k < files.len() && file_data(file_views(files@), path@, 0) == Some(
                files@[k as int].data@,
            ),
            None => file_data(file_views(files@), path@, 0) is None,
        },
{
    let mut k: usize = 0;
    while k < files.len()
        invariant
            k <= files.len(),
            file_data(file_views(files@), path@, 0) == file_data(
                file_views(files@),
                path@,
                k as int,
            ),
        decreases files.len() - k,
    {
        let candidate = chars_of(files[k].path.as_str());
        if same_chars(&candidate, path) {
            return Some(k);
        }
        k += 1;
    }
    None
}

/// The characters `src`.
fn source_name() -> (name: Vec<char>)
    ensures
        name@ == source_key(),
{
    let name: Vec<char> = vec!['s', 'r', 'c'];
    assert(name@ =~= source_key());
    name
}

/// Appends an element as it is shown to `out`.
fn push_element_art(
    renderer: &TerminalRenderer,
    image_processor: &mut ImageProcessor,
    font_renderer: &mut FontRenderer,
    element: &MarkdownElement,
    files: &Vec<ImageFile>,
    out: &mut String,
)
    requires
        old(font_renderer).wf(),
    ensures
        final(font_renderer).wf(),
        final(font_renderer).font_data() == old(font_renderer).font_data(),
        final(font_renderer).keeps(
            old(font_renderer),
            renderer.size(),
            element_chars(
                old(font_renderer).font_data(),
                element@,
                renderer.size(),
                renderer.max_width(),
            ),
        ),
        final(out)@ == old(out)@ + element_art(
            old(font_renderer).font_data(),
            element@,
            renderer.size(),
            renderer.max_width(),
            file_views(files@),
        ),
{
    match element.element_type {
        ElementType::Heading(level) => {
            let mut title = String::new();
            push_repeat(&mut title, '#', level as usize);
            title.push(' ');
            title.append(element.content.as_str());
            assert(title@ =~= heading_text(level, element.content@));
            renderer.push_text(&chars_of(title.as_str()), font_renderer, out);
        },
        ElementType::Paragraph => {
            renderer.push_text(&chars_of(element.content.as_str()), font_renderer, out);
        },
        ElementType::CodeBlock => {
            renderer.push_code_block(&chars_of(element.content.as_str()), font_renderer, out);
        },
        ElementType::Image => {
            let found = find_attribute(&element.attributes, &source_name());
            match found {
                Some(k) => {
                    let path = element.attributes[k].1.as_str();
                    let shown = match find_file(files, &chars_of(path)) {
                        Some(f) => image_processor.process_image(
                            path,
                            Some(files[f].data.as_slice()),
                        ),
                        None => image_processor.process_image(path, None),
                    };
                    out.append(shown.as_str());
                },
                None => {
                    assert(out@ =~= old(out)@ + Seq::<char>::empty());
                },
            }
        },
        ElementType::Text => {
            renderer.push_text(&chars_of(element.content.as_str()), font_renderer, out);
        },
        ElementType::Blockquote => {
            renderer.push_blockquote(&chars_of(element.content.as_str()), font_renderer, out);
        },
        ElementType::List => {
            renderer.push_list(element.children.as_slice(), font_renderer, out);
        },
        ElementType::ListItem => {
            renderer.push_list_item(&chars_of(element.content.as_str()), font_renderer, out);
        },
    }
}

/// Shows the elements of a document, each followed by a line feed. Text is wrapped
/// into `width` pixels. `files` holds the files that could be read; a picture whose
/// file is not among them is shown as a note that it could not be loaded.
pub fn render_markdown(
    elements: &Vec<MarkdownElement>,
    width: usize,
    font_renderer: &mut FontRenderer,
    files: &Vec<ImageFile>,
) -> (shown: String)
    requires
        old(font_renderer).wf(),
    ensures
        final(font_renderer).wf(),
        final(font_renderer).font_data() == old(font_renderer).font_data(),
        final(font_renderer).keeps(
            old(font_renderer),
            PIXEL_SIZE,
            document_chars(
                old(font_renderer).font_data(),
                element_views(elements@),
                PIXEL_SIZE,
                width,
                elements@.len() as int,
            ),
        ),
        shown@ == document_art(
            old(font_renderer).font_data(),
            element_views(elements@),
            PIXEL_SIZE,
            width,
            file_views(files@),
            elements@.len() as int,
        ),
{
    let renderer = TerminalRenderer::new(width);
    let mut image_processor = ImageProcessor::new();
    let ghost font = font_renderer.font_data();
    let mut shown = String::new();
    let mut i: usize = 0;
    while i < elements.len()
        invariant
            i <= elements.len(),
            font_renderer.wf(),
            font_renderer.font_data() == font,
            font == old(font_renderer).font_data(),
            renderer.size() == PIXEL_SIZE,
            renderer.max_width() == width,
            font_renderer.keeps(
                old(font_renderer),
                PIXEL_SIZE,
                document_chars(font, element_views(elements@), PIXEL_SIZE, width, i as int),
            ),
            shown@ == document_art(
                font,
                element_views(elements@),
                PIXEL_SIZE,
                width,
                file_views(files@),
                i as int,
            ),
        decreases elements.len() - i,
    {
        push_element_art(
            &renderer,
            &mut image_processor,
            font_renderer,
            &elements[i],
            files,
            &mut shown,
        );
        shown.push('\n');
        i += 1;
    }
    shown
}

/// Reads a document and shows it: its elements one after the other, each followed by
/// a line feed. Text is wrapped into `width` pixels and drawn with the font in
/// `font_data`; where `font_data` is no font, the wrapped lines are shown as they are.
/// `files` holds the files that could be read.
pub fn process_markdown(
    content: &str,
    width: usize,
    font_data: &[u8],
    files: &Vec<ImageFile>,
) -> (shown: String)
    ensures
        shown@ == document_art(
            usable_font(font_data@),
            parsed(content@),
            PIXEL_SIZE,
            width,
            file_views(files@),
            parsed(content@).len() as int,
        ),
{
    let elements = parse_markdown(content);
    let mut font_renderer = FontRenderer::new(font_data);
    render_markdown(&elements, width, &mut font_renderer, files)
}

/// The paths of the pictures that a document names, in order.
pub fn image_sources(elements: &Vec<MarkdownElement>) -> (paths: Vec<String>)
    ensures
        paths@.map_values(|path: String| path@) == sources(
            element_views(elements@),
            elements@.len() as int,
        ),
{
    let mut paths: Vec<String> = Vec::new();
    let name = source_name();
    let ghost texts = |path: String| path@;
    let mut i: usize = 0;
    assert(paths@.map_values(texts) =~= Seq::<Seq<char>>::empty());
    while i < elements.len()
        invariant
            i <= elements.len(),
            name@ == source_key(),
            texts == |path: String| path@,
            paths@.map_values(texts) == sources(element_views(elements@), i as int),
        decreases elements.len() - i,
    {
        let element = &elements[i];
        let is_image = match element.element_type {
            ElementType::Image => true,
            _ => false,
        };
        if is_image {
            match find_attribute(&element.attributes, &name) {
                Some(k) => {
                    let ghost before = paths@.map_values(texts);
                    let path = element.attributes[k].1.clone();
                    paths.push(path);
                    assert(paths@.map_values(texts) =~= before.push(path@));
                },
                None => {},
            }
        }
        i += 1;
    }
    paths
}

} // verus!
