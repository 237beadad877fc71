# wgames

A handful of small word and card games whose rules are verified with Verus:

- `tetris`: the pieces, their turns and the board they fall on;
- `poker`: card encoding, hand ranks from prime products and bit patterns, and
  the summary of the best hands of a deal;
- `wordle` and `wordle_classic`: the word-guessing game as a state machine, with
  its letter marks, statistics and the daily word;
- `dungeon`: the first dungeon crawler, with its letter bag and entity index;
- `word_dungeon`: the second dungeon crawler: entities made of components, an
  index of entities by the kinds of their components, sight and fog, dialogues,
  events, items and their effects, the keys the player presses, and what is
  drawn: the glyphs of the map, the line being typed and the side panel;
- `grid`, `text`, `random`, `equality_helpers`: what the games share.

`src/` is the verified library. `tests/` runs it on concrete games. `app/` is the
terminal program around it (`wgames tetris | poker | wurdle | classic | wungeon`): the
keyboard, the screen, the files and the threads.
