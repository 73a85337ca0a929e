# Wikigraph

Wikigraph turns a Wikipedia XML dump into a link graph in a compact binary file.

## File format

All integers have 32 bits, are signed, and have their low byte first.

- The file header has four integers: the version, the number of pages, and two without use.
- Each page has a header of four integers, three without use and the number of its links, and then
  one integer for each link: the byteoffset of the page that it leads to.

A byteoffset counts from the start of the file to the header of a page, so the first page has 16.
Behind the header of a page, 4 bytes for each of its links lead to the next page.

## How it works

The first pass reads the dump. For each article it stores a row in a lookup table (title,
byteoffset, and length, the bytes of its links) and appends a line `title|link,link,` to an
adjacency list; for each redirect it stores a row in a redirect table. An article with a byteoffset
of 16 and a length of 1536 begins 16 bytes from the start of the file and has 1536 / 4 = 384 links.

A link is `[[target]]`, whose label and section are cut off. Links into the namespaces of files,
users and the project itself are passed over, and so is all that stands in a template or in
highlighted code.

The second pass turns the adjacency list and the lookup table into the graph file.

## Layout

`src/` is the verified library.

- `text`: searching and splitting strings
- `links`: the links of a page's text
- `markup`: decoding the text of an XML event
- `page`: which pages are articles
- `dump`: the first pass, as a machine that takes the events of an XML reader
- `adjacency`: the lines of the adjacency list
- `layout`, `words`, `graph`: the graph file
- `models`, `tables`: the rows of the tables, and the decisions around them
- `parser`: the two passes as a whole
- `catalog`, `laws`: what holds of the passes together

`app/` holds what reads and writes: files, the database, the XML reader and the progress bars.
