use vstd::prelude::*;

verus! {

/// Number of symbols in the alphabet table.
pub const ALPHABET_LEN: usize = 98;

/// Table index of the reserved separator symbol.
pub const SEPARATOR_INDEX: usize = 97;

/// The reserved separator symbol (table index 97).
pub const SEPARATOR: char = '\u{2022}';

/// The symbol stored at table index `i`.
///
/// Only indices `0 <= i < 98` name a table entry; outside that range the
/// function returns the placeholder symbol, and callers must guard the range
/// themselves.
pub open spec fn alphabet_char(i: int) -> char {
    if i == 0 { '\u{fffd}' }
    else if i == 1 { '0' }
    else if i == 2 { '1' }
    else if i == 3 { '2' }
    else if i == 4 { '3' }
    else if i == 5 { '4' }
    else if i == 6 { '5' }
    else if i == 7 { '6' }
    else if i == 8 { '7' }
    else if i == 9 { '8' }
    else if i == 10 { '9' }
    else if i == 11 { 'a' }
    else if i == 12 { 'b' }
    else if i == 13 { 'c' }
    else if i == 14 { 'd' }
    else if i == 15 { 'e' }
    else if i == 16 { 'f' }
    else if i == 17 { 'g' }
    else if i == 18 { 'h' }
    else if i == 19 { 'i' }
    else if i == 20 { 'j' }
    else if i == 21 { 'k' }
    else if i == 22 { 'l' }
    else if i == 23 { 'm' }
    else if i == 24 { 'n' }
    else if i == 25 { 'o' }
    else if i == 26 { 'p' }
    else if i == 27 { 'q' }
    else if i == 28 { 'r' }
    else if i == 29 { 's' }
    else if i == 30 { 't' }
    else if i == 31 { 'u' }
    else if i == 32 { 'v' }
    else if i == 33 { 'w' }
    else if i == 34 { 'x' }
    else if i == 35 { 'y' }
    else if i == 36 { 'z' }
    else if i == 37 { 'A' }
    else if i == 38 { 'B' }
    else if i == 39 { 'C' }
    else if i == 40 { 'D' }
    else if i == 41 { 'E' }
    else if i == 42 { 'F' }
    else if i == 43 { 'G' }
    else if i == 44 { 'H' }
    else if i == 45 { 'I' }
    else if i == 46 { 'J' }
    else if i == 47 { 'K' }
    else if i == 48 { 'L' }
    else if i == 49 { 'M' }
    else if i == 50 { 'N' }
    else if i == 51 { 'O' }
    else if i == 52 { 'P' }
    else if i == 53 { 'Q' }
    else if i == 54 { 'R' }
    else if i == 55 { 'S' }
    else if i == 56 { 'T' }
    else if i == 57 { 'U' }
    else if i == 58 { 'V' }
    else if i == 59 { 'W' }
    else if i == 60 { 'X' }
    else if i == 61 { 'Y' }
    else if i == 62 { 'Z' }
    else if i == 63 { '!' }
    else if i == 64 { '"' }
    else if i == 65 { '#' }
    else if i == 66 { '$' }
    else if i == 67 { '%' }
    else if i == 68 { '&' }
    else if i == 69 { '\'' }
    else if i == 70 { '(' }
    else if i == 71 { ')' }
    else if i == 72 { '*' }
    else if i == 73 { '+' }
    else if i == 74 { ',' }
    else if i == 75 { '-' }
    else if i == 76 { '.' }
    else if i == 77 { '/' }
    else if i == 78 { ':' }
    else if i == 79 { ';' }
    else if i == 80 { '<' }
    else if i == 81 { '=' }
    else if i == 82 { '>' }
    else if i == 83 { '?' }
    else if i == 84 { '@' }
    else if i == 85 { '[' }
    else if i == 86 { '\\' }
    else if i == 87 { ']' }
    else if i == 88 { '^' }
    else if i == 89 { '_' }
    else if i == 90 { '`' }
    else if i == 91 { '{' }
    else if i == 92 { '|' }
    else if i == 93 { '}' }
    else if i == 94 { '~' }
    else if i == 95 { ' ' }
    else if i == 96 { '\n' }
    else if i == 97 { '\u{2022}' }
    else { '\u{fffd}' }
}

/// The table index of symbol `c`, or `None` when `c` is outside the alphabet.
pub open spec fn alphabet_index(c: char) -> Option<usize> {
    if c == '\u{fffd}' { Some(0usize) }
    else if c == '0' { Some(1usize) }
    else if c == '1' { Some(2usize) }
    else if c == '2' { Some(3usize) }
    else if c == '3' { Some(4usize) }
    else if c == '4' { Some(5usize) }
    else if c == '5' { Some(6usize) }
    else if c == '6' { Some(7usize) }
    else if c == '7' { Some(8usize) }
    else if c == '8' { Some(9usize) }
    else if c == '9' { Some(10usize) }
    else if c == 'a' { Some(11usize) }
    else if c == 'b' { Some(12usize) }
    else if c == 'c' { Some(13usize) }
    else if c == 'd' { Some(14usize) }
    else if c == 'e' { Some(15usize) }
    else if c == 'f' { Some(16usize) }
    else if c == 'g' { Some(17usize) }
    else if c == 'h' { Some(18usize) }
    else if c == 'i' { Some(19usize) }
    else if c == 'j' { Some(20usize) }
    else if c == 'k' { Some(21usize) }
    else if c == 'l' { Some(22usize) }
    else if c == 'm' { Some(23usize) }
    else if c == 'n' { Some(24usize) }
    else if c == 'o' { Some(25usize) }
    else if c == 'p' { Some(26usize) }
    else if c == 'q' { Some(27usize) }
    else if c == 'r' { Some(28usize) }
    else if c == 's' { Some(29usize) }
    else if c == 't' { Some(30usize) }
    else if c == 'u' { Some(31usize) }
    else if c == 'v' { Some(32usize) }
    else if c == 'w' { Some(33usize) }
    else if c == 'x' { Some(34usize) }
    else if c == 'y' { Some(35usize) }
    else if c == 'z' { Some(36usize) }
    else if c == 'A' { Some(37usize) }
    else if c == 'B' { Some(38usize) }
    else if c == 'C' { Some(39usize) }
    else if c == 'D' { Some(40usize) }
    else if c == 'E' { Some(41usize) }
    else if c == 'F' { Some(42usize) }
    else if c == 'G' { Some(43usize) }
    else if c == 'H' { Some(44usize) }
    else if c == 'I' { Some(45usize) }
    else if c == 'J' { Some(46usize) }
    else if c == 'K' { Some(47usize) }
    else if c == 'L' { Some(48usize) }
    else if c == 'M' { Some(49usize) }
    else if c == 'N' { Some(50usize) }
    else if c == 'O' { Some(51usize) }
    else if c == 'P' { Some(52usize) }
    else if c == 'Q' { Some(53usize) }
    else if c == 'R' { Some(54usize) }
    else if c == 'S' { Some(55usize) }
    else if c == 'T' { Some(56usize) }
    else if c == 'U' { Some(57usize) }
    else if c == 'V' { Some(58usize) }
    else if c == 'W' { Some(59usize) }
    else if c == 'X' { Some(60usize) }
    else if c == 'Y' { Some(61usize) }
    else if c == 'Z' { Some(62usize) }
    else if c == '!' { Some(63usize) }
    else if c == '"' { Some(64usize) }
    else if c == '#' { Some(65usize) }
    else if c == '$' { Some(66usize) }
    else if c == '%' { Some(67usize) }
    else if c == '&' { Some(68usize) }
    else if c == '\'' { Some(69usize) }
    else if c == '(' { Some(70usize) }
    else if c == ')' { Some(71usize) }
    else if c == '*' { Some(72usize) }
    else if c == '+' { Some(73usize) }
    else if c == ',' { Some(74usize) }
    else if c == '-' { Some(75usize) }
    else if c == '.' { Some(76usize) }
    else if c == '/' { Some(77usize) }
    else if c == ':' { Some(78usize) }
    else if c == ';' { Some(79usize) }
    else if c == '<' { Some(80usize) }
    else if c == '=' { Some(81usize) }
    else if c == '>' { Some(82usize) }
    else if c == '?' { Some(83usize) }
    else if c == '@' { Some(84usize) }
    else if c == '[' { Some(85usize) }
    else if c == '\\' { Some(86usize) }
    else if c == ']' { Some(87usize) }
    else if c == '^' { Some(88usize) }
    else if c == '_' { Some(89usize) }
    else if c == '`' { Some(90usize) }
    else if c == '{' { Some(91usize) }
    else if c == '|' { Some(92usize) }
    else if c == '}' { Some(93usize) }
    else if c == '~' { Some(94usize) }
    else if c == ' ' { Some(95usize) }
    else if c == '\n' { Some(96usize) }
    else if c == '\u{2022}' { Some(97usize) }
    else { None }
}

/// True when `c` is one of the 98 alphabet symbols.
pub open spec fn in_alphabet(c: char) -> bool {
    alphabet_index(c) is Some
}

/// Law: an index held by the table, decoded to its symbol and encoded back,
/// yields the same index.
pub proof fn lemma_alphabet_encode_decode(i: int)
    requires
        0 <= i < 98,
    ensures
        alphabet_index(alphabet_char(i)) == Some(i as usize),
{
}

/// Law: a symbol of the alphabet, encoded to its index and decoded back,
/// yields the same symbol; the index always lies below 98.
pub proof fn lemma_alphabet_decode_encode(c: char)
    requires
        in_alphabet(c),
    ensures
        alphabet_index(c)->0 < 98,
        alphabet_char(alphabet_index(c)->0 as int) == c,
{
}

/// The fixed bijection between the 98 alphabet symbols and indices 0–97.
///
/// Index 0 is a reserved placeholder and index 97 the reserved separator.
pub struct EncodingTable;

impl EncodingTable {
    /// Returns the symbol at `index`, or `None` when `index` is outside the table.
    pub fn decode(index: usize) -> (r: Option<char>)
        ensures
            r == (if index < 98 { Some(alphabet_char(index as int)) } else { None::<char> }),
    {
        if index >= 98 {
            return None;
        }
        Some(match index {
            0 => '\u{fffd}',
            1 => '0',
            2 => '1',
            3 => '2',
            4 => '3',
            5 => '4',
            6 => '5',
            7 => '6',
            8 => '7',
            9 => '8',
            10 => '9',
            11 => 'a',
            12 => 'b',
            13 => 'c',
            14 => 'd',
            15 => 'e',
            16 => 'f',
            17 => 'g',
            18 => 'h',
            19 => 'i',
            20 => 'j',
            21 => 'k',
            22 => 'l',
            23 => 'm',
            24 => 'n',
            25 => 'o',
            26 => 'p',
            27 => 'q',
            28 => 'r',
            29 => 's',
            30 => 't',
            31 => 'u',
            32 => 'v',
            33 => 'w',
            34 => 'x',
            35 => 'y',
            36 => 'z',
            37 => 'A',
            38 => 'B',
            39 => 'C',
            40 => 'D',
            41 => 'E',
            42 => 'F',
            43 => 'G',
            44 => 'H',
            45 => 'I',
            46 => 'J',
            47 => 'K',
            48 => 'L',
            49 => 'M',
            50 => 'N',
            51 => 'O',
            52 => 'P',
            53 => 'Q',
            54 => 'R',
            55 => 'S',
            56 => 'T',
            57 => 'U',
            58 => 'V',
            59 => 'W',
            60 => 'X',
            61 => 'Y',
            62 => 'Z',
            63 => '!',
            64 => '"',
            65 => '#',
            66 => '$',
            67 => '%',
            68 => '&',
            69 => '\'',
            70 => '(',
            71 => ')',
            72 => '*',
            73 => '+',
            74 => ',',
            75 => '-',
            76 => '.',
            77 => '/',
            78 => ':',
            79 => ';',
            80 => '<',
            81 => '=',
            82 => '>',
            83 => '?',
            84 => '@',
            85 => '[',
            86 => '\\',
            87 => ']',
            88 => '^',
            89 => '_',
            90 => '`',
            91 => '{',
            92 => '|',
            93 => '}',
            94 => '~',
            95 => ' ',
            96 => '\n',
            97 => '\u{2022}',
            _ => '\u{fffd}',
        })
    }

    /// Returns the table index of `c`, or `None` when `c` is outside the alphabet.
    pub fn encode(c: char) -> (r: Option<usize>)
        ensures
            r == alphabet_index(c),
    {
        match c {
            '\u{fffd}' => Some(0),
            '0' => Some(1),
            '1' => Some(2),
            '2' => Some(3),
            '3' => Some(4),
            '4' => Some(5),
            '5' => Some(6),
            '6' => Some(7),
            '7' => Some(8),
            '8' => Some(9),
            '9' => Some(10),
            'a' => Some(11),
            'b' => Some(12),
            'c' => Some(13),
            'd' => Some(14),
            'e' => Some(15),
            'f' => Some(16),
            'g' => Some(17),
            'h' => Some(18),
            'i' => Some(19),
            'j' => Some(20),
            'k' => Some(21),
            'l' => Some(22),
            'm' => Some(23),
            'n' => Some(24),
            'o' => Some(25),
            'p' => Some(26),
            'q' => Some(27),
            'r' => Some(28),
            's' => Some(29),
            't' => Some(30),
            'u' => Some(31),
            'v' => Some(32),
            'w' => Some(33),
            'x' => Some(34),
            'y' => Some(35),
            'z' => Some(36),
            'A' => Some(37),
            'B' => Some(38),
            'C' => Some(39),
            'D' => Some(40),
            'E' => Some(41),
            'F' => Some(42),
            'G' => Some(43),
            'H' => Some(44),
            'I' => Some(45),
            'J' => Some(46),
            'K' => Some(47),
            'L' => Some(48),
            'M' => Some(49),
            'N' => Some(50),
            'O' => Some(51),
            'P' => Some(52),
            'Q' => Some(53),
            'R' => Some(54),
            'S' => Some(55),
            'T' => Some(56),
            'U' => Some(57),
            'V' => Some(58),
            'W' => Some(59),
            'X' => Some(60),
            'Y' => Some(61),
            'Z' => Some(62),
            '!' => Some(63),
            '"' => Some(64),
            '#' => Some(65),
            '$' => Some(66),
            '%' => Some(67),
            '&' => Some(68),
            '\'' => Some(69),
            '(' => Some(70),
            ')' => Some(71),
            '*' => Some(72),
            '+' => Some(73),
            ',' => Some(74),
            '-' => Some(75),
            '.' => Some(76),
            '/' => Some(77),
            ':' => Some(78),
            ';' => Some(79),
            '<' => Some(80),
            '=' => Some(81),
            '>' => Some(82),
            '?' => Some(83),
            '@' => Some(84),
            '[' => Some(85),
            '\\' => Some(86),
            ']' => Some(87),
            '^' => Some(88),
            '_' => Some(89),
            '`' => Some(90),
            '{' => Some(91),
            '|' => Some(92),
            '}' => Some(93),
            '~' => Some(94),
            ' ' => Some(95),
            '\n' => Some(96),
            '\u{2022}' => Some(97),
            _ => None,
        }
    }
}

} // verus!
